//! The ICMP wire format: echo request encoding and reply decoding.
//!
//! An echo request is a 12-byte buffer: an 8-byte header (type, code,
//! checksum, identity, sequence) followed by the fixed 4-byte payload
//! `01 02 03 04`.  Identity and sequence are big-endian on the wire.  For
//! IPv4 the checksum is the internet checksum of the whole buffer; for
//! IPv6 it is left zero, since the kernel fills it in using the
//! pseudo-header.  A reply arrives inside an IP packet; the identity is
//! recovered as the big-endian pair right after the 4-byte ICMP header.

use vstd::prelude::*;

verus! {

/// One end-around-carry folding step of the internet checksum.
pub open spec fn spec_checksum_fold(s: int) -> int {
    s % 65536 + s / 65536
}

/// The 16-bit big-endian word at position `i` of a byte string.
pub open spec fn spec_word_at(b: Seq<u8>, i: int) -> int {
    b[2 * i] * 256 + b[2 * i + 1]
}

/// The internet checksum of a 12-byte buffer whose checksum field is
/// zero: the ones' complement of the end-around-carry sum of its six
/// 16-bit words.
pub open spec fn spec_icmp_checksum(b: Seq<u8>) -> int {
    let sum = spec_word_at(b, 0) + spec_word_at(b, 1) + spec_word_at(b, 2) + spec_word_at(b, 3)
        + spec_word_at(b, 4) + spec_word_at(b, 5);
    65535 - spec_checksum_fold(spec_checksum_fold(sum))
}

/// An echo request before its checksum is written: type 8 for IPv4 or 128
/// for IPv6, code zero, zero checksum, big-endian identity and sequence,
/// and the fixed payload.
pub open spec fn spec_echo_request_unsummed(v4: bool, identity: u16, seq_number: u16) -> Seq<u8> {
    seq![
        if v4 {
            8u8
        } else {
            128u8
        },
        0u8,
        0u8,
        0u8,
        (identity / 256) as u8,
        (identity % 256) as u8,
        (seq_number / 256) as u8,
        (seq_number % 256) as u8,
        1u8,
        2u8,
        3u8,
        4u8,
    ]
}

/// The bytes of an echo request as they go on the wire.  Only the IPv4
/// request carries its checksum; the IPv6 checksum is the kernel's job.
pub open spec fn spec_echo_request(v4: bool, identity: u16, seq_number: u16) -> Seq<u8> {
    let base = spec_echo_request_unsummed(v4, identity, seq_number);
    if v4 {
        let ck = spec_icmp_checksum(base);
        base.update(2, (ck / 256) as u8).update(3, (ck % 256) as u8)
    } else {
        base
    }
}

/// Encode one echo request.
pub fn encode_echo_request(v4: bool, identity: u16, seq_number: u16) -> (r: Vec<u8>)
    ensures
        r@ == spec_echo_request(v4, identity, seq_number),
        r@.len() == 12,
{
    let type_byte: u8 = if v4 {
        8
    } else {
        128
    };
    let id_hi: u8 = (identity / 256) as u8;
    let id_lo: u8 = (identity % 256) as u8;
    let seq_hi: u8 = (seq_number / 256) as u8;
    let seq_lo: u8 = (seq_number % 256) as u8;
    let mut ck_hi: u8 = 0;
    let mut ck_lo: u8 = 0;
    if v4 {
        let sum: u32 = (type_byte as u32) * 256 + (identity as u32) + (seq_number as u32) + 0x0102
            + 0x0304;
        let folded: u32 = sum % 65536 + sum / 65536;
        let folded2: u32 = folded % 65536 + folded / 65536;
        let ck: u32 = 65535 - folded2;
        ck_hi = (ck / 256) as u8;
        ck_lo = (ck % 256) as u8;
        proof {
            let base = spec_echo_request_unsummed(v4, identity, seq_number);
            assert(spec_word_at(base, 0) == 8 * 256);
            assert(spec_word_at(base, 1) == 0);
            assert(spec_word_at(base, 2) == (identity / 256) * 256 + identity % 256);
            assert(spec_word_at(base, 3) == (seq_number / 256) * 256 + seq_number % 256);
            assert(spec_word_at(base, 4) == 0x0102);
            assert(spec_word_at(base, 5) == 0x0304);
            assert((identity / 256) * 256 + identity % 256 == identity);
            assert((seq_number / 256) * 256 + seq_number % 256 == seq_number);
            assert(ck == spec_icmp_checksum(base));
        }
    }
    let mut out: Vec<u8> = Vec::new();
    out.push(type_byte);
    out.push(0);
    out.push(ck_hi);
    out.push(ck_lo);
    out.push(id_hi);
    out.push(id_lo);
    out.push(seq_hi);
    out.push(seq_lo);
    out.push(1);
    out.push(2);
    out.push(3);
    out.push(4);
    proof {
        assert(out@ =~= spec_echo_request(v4, identity, seq_number));
    }
    out
}

/// The identity of an echo reply delivered as a whole IPv4 packet: the
/// header length field names where the ICMP message starts, and the
/// identity is the big-endian pair right after the 4-byte ICMP header.  A
/// frame too short, of the wrong version, or with a nonsense header
/// length is malformed and carries no identity.
pub open spec fn spec_ipv4_reply_identity(b: Seq<u8>) -> Option<u16> {
    if b.len() < 1 {
        None
    } else {
        let version = b[0] / 16;
        let ihl = b[0] % 16;
        if version == 4 && ihl >= 5 && b.len() >= ihl * 4 + 6 {
            Some((b[ihl * 4 + 4] * 256 + b[ihl * 4 + 5]) as u16)
        } else {
            None
        }
    }
}

/// The identity of an echo reply delivered as a whole IPv6 packet: the
/// header is the fixed 40 bytes, then the 4-byte ICMP header, then the
/// big-endian identity.
pub open spec fn spec_ipv6_reply_identity(b: Seq<u8>) -> Option<u16> {
    if b.len() >= 46 {
        Some((b[44] * 256 + b[45]) as u16)
    } else {
        None
    }
}

/// Decode the identity out of a received IPv4 frame, dropping malformed
/// frames.
pub fn parse_ipv4_reply_identity(packet: &Vec<u8>) -> (r: Option<u16>)
    ensures
        r == spec_ipv4_reply_identity(packet@),
{
    if packet.len() < 1 {
        return None;
    }
    let version: u8 = packet[0] / 16;
    let ihl: u8 = packet[0] % 16;
    if version == 4 && ihl >= 5 && packet.len() >= (ihl as usize) * 4 + 6 {
        let off: usize = (ihl as usize) * 4;
        Some((packet[off + 4] as u16) * 256 + (packet[off + 5] as u16))
    } else {
        None
    }
}

/// Decode the identity out of a received IPv6 frame, dropping malformed
/// frames.
pub fn parse_ipv6_reply_identity(packet: &Vec<u8>) -> (r: Option<u16>)
    ensures
        r == spec_ipv6_reply_identity(packet@),
{
    if packet.len() >= 46 {
        Some((packet[44] as u16) * 256 + (packet[45] as u16))
    } else {
        None
    }
}

} // verus!
