//! Reading targets from text.
//!
//! The grammar is small and permissive.  Four greedy decimal octets
//! joined by dots are an IPv4 address; eight colon-joined groups of up to
//! four hex digits — or fewer groups with one `::` eliding the zero
//! groups between them, the ending side optionally finishing with an
//! embedded dotted quad — are an IPv6 address; an address followed by a
//! slash and a prefix length (up to 32 or 128) is a network.  Anything
//! else is accepted as a hostname, since users sometimes want to scan
//! names that are not exactly standard but still resolve.  A decimal
//! octet is one to three digits with no leading zero.

use vstd::prelude::*;

use crate::ip::{IpAddress, IpNetwork};
use crate::target::Target;

verus! {

/// Whether position `i` holds a decimal digit.
pub open spec fn digit_at(s: Seq<char>, i: int) -> bool {
    0 <= i < s.len() && 48 <= s[i] as int <= 57
}

/// The value of the digit at position `i`.
pub open spec fn digit_value(s: Seq<char>, i: int) -> int {
    s[i] as int - 48
}

/// Read one greedy decimal octet at position `i`: one to three digits, no
/// leading zero, value at most 255.  Yields the value and the position
/// after it.
pub open spec fn spec_read_octet(s: Seq<char>, i: int) -> Option<(int, int)> {
    if !digit_at(s, i) {
        None
    } else if s[i] as int == 48 {
        if digit_at(s, i + 1) {
            None
        } else {
            Some((0int, i + 1))
        }
    } else if !digit_at(s, i + 1) {
        Some((digit_value(s, i), i + 1))
    } else if !digit_at(s, i + 2) {
        Some((digit_value(s, i) * 10 + digit_value(s, i + 1), i + 2))
    } else if digit_at(s, i + 3) {
        None
    } else {
        let v = digit_value(s, i) * 100 + digit_value(s, i + 1) * 10 + digit_value(s, i + 2);
        if v <= 255 {
            Some((v, i + 3))
        } else {
            None
        }
    }
}

/// Whether position `i` holds the given character.
pub open spec fn char_at(s: Seq<char>, i: int, c: char) -> bool {
    0 <= i < s.len() && s[i] == c
}

/// Read a dotted quad from the start of the text: four octets joined by
/// dots.  Yields the address value and the position after it.
pub open spec fn spec_read_ipv4(s: Seq<char>) -> Option<(int, int)> {
    match spec_read_octet(s, 0) {
        None => None,
        Some((a, i1)) => if !char_at(s, i1, '.') {
            None
        } else {
            match spec_read_octet(s, i1 + 1) {
                None => None,
                Some((b, i2)) => if !char_at(s, i2, '.') {
                    None
                } else {
                    match spec_read_octet(s, i2 + 1) {
                        None => None,
                        Some((c, i3)) => if !char_at(s, i3, '.') {
                            None
                        } else {
                            match spec_read_octet(s, i3 + 1) {
                                None => None,
                                Some((d, i4)) => Some(
                                    (a * 0x1000000 + b * 0x10000 + c * 0x100 + d, i4),
                                ),
                            }
                        },
                    }
                },
            }
        },
    }
}

/// An IPv4 address is a dotted quad that uses the whole text.
pub open spec fn spec_parse_ipv4(s: Seq<char>) -> Option<u32> {
    match spec_read_ipv4(s) {
        Some((v, i)) => if i == s.len() {
            Some(v as u32)
        } else {
            None
        },
        None => None,
    }
}

/// An IPv4 network is a dotted quad, a slash, and a prefix length of at
/// most 32, using the whole text.
pub open spec fn spec_parse_ipv4_net(s: Seq<char>) -> Option<(u32, u8)> {
    match spec_read_ipv4(s) {
        None => None,
        Some((v, i)) => if !char_at(s, i, '/') {
            None
        } else {
            match spec_read_octet(s, i + 1) {
                None => None,
                Some((p, j)) => if p <= 32 && j == s.len() {
                    Some((v as u32, p as u8))
                } else {
                    None
                },
            }
        },
    }
}

/// Whether position `i` of the text holds a decimal digit.
fn is_digit(s: &str, n: usize, i: usize) -> (r: bool)
    requires
        n == s@.len(),
    ensures
        r == digit_at(s@, i as int),
{
    if i < n {
        let c = s.get_char(i) as u32;
        48 <= c && c <= 57
    } else {
        false
    }
}

/// Whether position `i` of the text holds the character `c`.
fn is_char(s: &str, n: usize, i: usize, c: char) -> (r: bool)
    requires
        n == s@.len(),
    ensures
        r == char_at(s@, i as int, c),
{
    i < n && s.get_char(i) == c
}

/// Read one greedy decimal octet at position `i`.
fn read_octet(s: &str, n: usize, i: usize) -> (r: Option<(u32, usize)>)
    requires
        n == s@.len(),
        i <= n,
    ensures
        match r {
            Some((v, j)) => spec_read_octet(s@, i as int) == Some((v as int, j as int)) && i < j
                <= n && v <= 255,
            None => spec_read_octet(s@, i as int) is None,
        },
{
    if !is_digit(s, n, i) {
        return None;
    }
    let c0 = s.get_char(i) as u32 - 48;
    if c0 == 0 {
        if is_digit(s, n, i + 1) {
            return None;
        }
        return Some((0, i + 1));
    }
    if !is_digit(s, n, i + 1) {
        return Some((c0, i + 1));
    }
    let c1 = s.get_char(i + 1) as u32 - 48;
    if !is_digit(s, n, i + 2) {
        return Some((c0 * 10 + c1, i + 2));
    }
    if is_digit(s, n, i + 3) {
        return None;
    }
    let c2 = s.get_char(i + 2) as u32 - 48;
    let v = c0 * 100 + c1 * 10 + c2;
    if v <= 255 {
        Some((v, i + 3))
    } else {
        None
    }
}

/// Read a dotted quad from the start of the text.
fn read_ipv4(s: &str, n: usize) -> (r: Option<(u32, usize)>)
    requires
        n == s@.len(),
    ensures
        match r {
            Some((v, j)) => spec_read_ipv4(s@) == Some((v as int, j as int)) && j <= n,
            None => spec_read_ipv4(s@) is None,
        },
{
    let (a, i1) = match read_octet(s, n, 0) {
        Some(p) => p,
        None => {
            return None;
        },
    };
    if !is_char(s, n, i1, '.') {
        return None;
    }
    let (b, i2) = match read_octet(s, n, i1 + 1) {
        Some(p) => p,
        None => {
            return None;
        },
    };
    if !is_char(s, n, i2, '.') {
        return None;
    }
    let (c, i3) = match read_octet(s, n, i2 + 1) {
        Some(p) => p,
        None => {
            return None;
        },
    };
    if !is_char(s, n, i3, '.') {
        return None;
    }
    let (d, i4) = match read_octet(s, n, i3 + 1) {
        Some(p) => p,
        None => {
            return None;
        },
    };
    Some((a * 0x1000000 + b * 0x10000 + c * 0x100 + d, i4))
}

/// Whether position `i` holds a hex digit.
pub open spec fn hex_digit_at(s: Seq<char>, i: int) -> bool {
    0 <= i < s.len() && (48 <= s[i] as int <= 57 || 97 <= s[i] as int <= 102 || 65 <= s[i] as int
        <= 70)
}

/// The value of the hex digit at position `i`.
pub open spec fn hex_digit_value(s: Seq<char>, i: int) -> int {
    let c = s[i] as int;
    if 48 <= c <= 57 {
        c - 48
    } else if 97 <= c <= 102 {
        c - 87
    } else {
        c - 55
    }
}

/// Read one greedy group of one to four hex digits at position `i`.
/// Yields the group value and the position after it.
pub open spec fn spec_read_h16(s: Seq<char>, i: int) -> Option<(int, int)> {
    if !hex_digit_at(s, i) {
        None
    } else if !hex_digit_at(s, i + 1) {
        Some((hex_digit_value(s, i), i + 1))
    } else if !hex_digit_at(s, i + 2) {
        Some((hex_digit_value(s, i) * 16 + hex_digit_value(s, i + 1), i + 2))
    } else if !hex_digit_at(s, i + 3) {
        Some(
            (
                hex_digit_value(s, i) * 256 + hex_digit_value(s, i + 1) * 16 + hex_digit_value(
                    s,
                    i + 2,
                ),
                i + 3,
            ),
        )
    } else if hex_digit_at(s, i + 4) {
        None
    } else {
        Some(
            (
                hex_digit_value(s, i) * 4096 + hex_digit_value(s, i + 1) * 256 + hex_digit_value(
                    s,
                    i + 2,
                ) * 16 + hex_digit_value(s, i + 3),
                i + 4,
            ),
        )
    }
}

/// The position of the first group-compression marker `::` at or after
/// `i`, or -1 when there is none.
pub open spec fn spec_find_compression(s: Seq<char>, i: int) -> int
    decreases s.len() - i when 0 <= i <= s.len()
{
    if i + 1 >= s.len() {
        -1
    } else if s[i] == ':' && s[i + 1] == ':' {
        i
    } else {
        spec_find_compression(s, i + 1)
    }
}

/// The position of the first slash at or after `i`, or -1 when there is
/// none.
pub open spec fn spec_find_slash(s: Seq<char>, i: int) -> int
    decreases s.len() - i when 0 <= i <= s.len()
{
    if i >= s.len() {
        -1
    } else if s[i] == '/' {
        i
    } else {
        spec_find_slash(s, i + 1)
    }
}

/// The group values a vector of 16-bit groups stands for.
pub open spec fn groups_view(groups: Seq<u16>) -> Seq<int> {
    groups.map_values(|g: u16| g as int)
}

/// Read one side of an IPv6 address: hex groups joined by single colons,
/// at most `max` of them, consuming `[i, end)` exactly.  On the side that
/// ends the address (`allow_v4`), the whole remainder may instead be an
/// embedded dotted quad, standing for the last two groups.
pub open spec fn spec_read_groups(
    s: Seq<char>,
    i: int,
    end: int,
    allow_v4: bool,
    max: int,
) -> Option<Seq<int>>
    decreases max,
{
    if max <= 0 {
        None
    } else if allow_v4 && max >= 2 && spec_parse_ipv4(s.subrange(i, end)) is Some {
        let v = spec_parse_ipv4(s.subrange(i, end)).unwrap() as int;
        Some(seq![v / 0x10000, v % 0x10000])
    } else {
        match spec_read_h16(s, i) {
            None => None,
            Some((v, j)) => if j == end {
                Some(seq![v])
            } else if j < end && char_at(s, j, ':') {
                match spec_read_groups(s, j + 1, end, allow_v4, max - 1) {
                    None => None,
                    Some(rest) => Some(seq![v] + rest),
                }
            } else {
                None
            },
        }
    }
}

/// The value of a run of 16-bit groups, read left to right as the most
/// significant first.
pub open spec fn spec_groups_value(groups: Seq<int>) -> int
    decreases groups.len(),
{
    if groups.len() == 0 {
        0int
    } else {
        spec_groups_value(groups.drop_last()) * 0x10000 + groups.last()
    }
}

/// An IPv6 literal: eight colon-joined hex groups, or fewer with one `::`
/// standing for the elided zero groups between the two sides; the side
/// that ends the address may finish with an embedded dotted quad counting
/// as the last two groups.
pub open spec fn spec_parse_ipv6(s: Seq<char>) -> Option<u128> {
    let comp = spec_find_compression(s, 0);
    if comp < 0 {
        match spec_read_groups(s, 0, s.len() as int, true, 8) {
            Some(gs) => if gs.len() == 8 {
                Some(spec_groups_value(gs) as u128)
            } else {
                None
            },
            None => None,
        }
    } else {
        let left = if comp == 0 {
            Some(Seq::<int>::empty())
        } else {
            spec_read_groups(s, 0, comp, false, 7)
        };
        let right = if comp + 2 == s.len() {
            Some(Seq::<int>::empty())
        } else {
            spec_read_groups(s, comp + 2, s.len() as int, true, 7)
        };
        match (left, right) {
            (Some(l), Some(r)) => if l.len() + r.len() <= 7 {
                let zeros = Seq::<int>::new((8 - l.len() - r.len()) as nat, |k: int| 0int);
                Some(spec_groups_value(l + zeros + r) as u128)
            } else {
                None
            },
            _ => None,
        }
    }
}

/// An IPv6 network is an IPv6 literal, a slash, and a prefix length of at
/// most 128, using the whole text.
pub open spec fn spec_parse_ipv6_net(s: Seq<char>) -> Option<(u128, u8)> {
    let sl = spec_find_slash(s, 0);
    if sl < 0 {
        None
    } else {
        match spec_parse_ipv6(s.subrange(0, sl)) {
            None => None,
            Some(a) => match spec_read_octet(s, sl + 1) {
                None => None,
                Some((p, j)) => if p <= 128 && j == s.len() {
                    Some((a, p as u8))
                } else {
                    None
                },
            },
        }
    }
}

/// Parse a whole text as an IPv4 address.
fn parse_ipv4_text(s: &str) -> (r: Option<u32>)
    ensures
        r == spec_parse_ipv4(s@),
{
    let n = s.unicode_len();
    match read_ipv4(s, n) {
        Some((v, i)) => if i == n {
            Some(v)
        } else {
            None
        },
        None => None,
    }
}

/// Parse a whole text as an IPv4 network.
fn parse_ipv4_net_text(s: &str) -> (r: Option<(u32, u8)>)
    ensures
        r == spec_parse_ipv4_net(s@),
{
    let n = s.unicode_len();
    match read_ipv4(s, n) {
        Some((v, i)) => {
            if is_char(s, n, i, '/') {
                match read_octet(s, n, i + 1) {
                    Some((p, j)) => {
                        if p <= 32 && j == n {
                            return Some((v, p as u8));
                        }
                        None
                    },
                    None => None,
                }
            } else {
                None
            }
        },
        None => None,
    }
}

/// Whether position `i` of the text holds a hex digit.
fn is_hex_digit(s: &str, n: usize, i: usize) -> (r: bool)
    requires
        n == s@.len(),
    ensures
        r == hex_digit_at(s@, i as int),
{
    if i < n {
        let c = s.get_char(i) as u32;
        (48 <= c && c <= 57) || (97 <= c && c <= 102) || (65 <= c && c <= 70)
    } else {
        false
    }
}

/// The value of the hex digit at position `i` of the text.
fn hex_value(s: &str, n: usize, i: usize) -> (r: u32)
    requires
        n == s@.len(),
        hex_digit_at(s@, i as int),
    ensures
        r == hex_digit_value(s@, i as int),
        r <= 15,
{
    let c = s.get_char(i) as u32;
    if 48 <= c && c <= 57 {
        c - 48
    } else if 97 <= c && c <= 102 {
        c - 87
    } else {
        c - 55
    }
}

/// Read one greedy group of one to four hex digits at position `i`.
fn read_h16(s: &str, n: usize, i: usize) -> (r: Option<(u32, usize)>)
    requires
        n == s@.len(),
        i <= n,
    ensures
        match r {
            Some((v, j)) => spec_read_h16(s@, i as int) == Some((v as int, j as int)) && i < j
                <= n && v <= 0xFFFF,
            None => spec_read_h16(s@, i as int) is None,
        },
{
    if !is_hex_digit(s, n, i) {
        return None;
    }
    let c0 = hex_value(s, n, i);
    if !is_hex_digit(s, n, i + 1) {
        return Some((c0, i + 1));
    }
    let c1 = hex_value(s, n, i + 1);
    if !is_hex_digit(s, n, i + 2) {
        return Some((c0 * 16 + c1, i + 2));
    }
    let c2 = hex_value(s, n, i + 2);
    if !is_hex_digit(s, n, i + 3) {
        return Some((c0 * 256 + c1 * 16 + c2, i + 3));
    }
    if is_hex_digit(s, n, i + 4) {
        return None;
    }
    let c3 = hex_value(s, n, i + 3);
    Some((c0 * 4096 + c1 * 256 + c2 * 16 + c3, i + 4))
}

/// Find the first group-compression marker `::` of the text.
fn find_compression(s: &str, n: usize) -> (r: Option<usize>)
    requires
        n == s@.len(),
    ensures
        match r {
            Some(c) => spec_find_compression(s@, 0) == c as int && c + 1 < n,
            None => spec_find_compression(s@, 0) == -1,
        },
{
    if n < 2 {
        return None;
    }
    let mut j: usize = 0;
    while j < n - 1
        invariant
            2 <= n == s@.len(),
            j <= n,
            spec_find_compression(s@, 0) == spec_find_compression(s@, j as int),
        decreases n - j,
    {
        if s.get_char(j) == ':' && s.get_char(j + 1) == ':' {
            return Some(j);
        }
        j = j + 1;
    }
    None
}

/// Find the first slash of the text.
fn find_slash(s: &str, n: usize) -> (r: Option<usize>)
    requires
        n == s@.len(),
    ensures
        match r {
            Some(c) => spec_find_slash(s@, 0) == c as int && c < n,
            None => spec_find_slash(s@, 0) == -1,
        },
{
    let mut j: usize = 0;
    while j < n
        invariant
            j <= n,
            n == s@.len(),
            spec_find_slash(s@, 0) == spec_find_slash(s@, j as int),
        decreases n - j,
    {
        if s.get_char(j) == '/' {
            return Some(j);
        }
        j = j + 1;
    }
    None
}

/// Read one side of an IPv6 address, as `spec_read_groups` lays it out.
fn read_groups(s: &str, n: usize, i: usize, end: usize, allow_v4: bool, max: usize) -> (r: Option<
    Vec<u16>,
>)
    requires
        n == s@.len(),
        i <= end <= n,
    ensures
        match r {
            Some(gs) => spec_read_groups(s@, i as int, end as int, allow_v4, max as int) == Some(
                groups_view(gs@),
            ),
            None => spec_read_groups(s@, i as int, end as int, allow_v4, max as int) is None,
        },
    decreases max,
{
    if max == 0 {
        return None;
    }
    if allow_v4 && max >= 2 {
        let sub = s.substring_char(i, end);
        match parse_ipv4_text(sub) {
            Some(v) => {
                let mut gs: Vec<u16> = Vec::new();
                gs.push((v / 0x10000) as u16);
                gs.push((v % 0x10000) as u16);
                proof {
                    assert(groups_view(gs@) =~= seq![
                        (v as int) / 0x10000,
                        (v as int) % 0x10000,
                    ]);
                }
                return Some(gs);
            },
            None => {},
        }
    }
    match read_h16(s, n, i) {
        None => None,
        Some((v, j)) => {
            if j == end {
                let mut gs: Vec<u16> = Vec::new();
                gs.push(v as u16);
                proof {
                    assert(groups_view(gs@) =~= seq![v as int]);
                }
                Some(gs)
            } else if is_char(s, n, j, ':') && j < end {
                match read_groups(s, n, j + 1, end, allow_v4, max - 1) {
                    None => None,
                    Some(mut rest) => {
                        let ghost rest0 = rest@;
                        let mut gs: Vec<u16> = Vec::new();
                        gs.push(v as u16);
                        gs.append(&mut rest);
                        proof {
                            assert(groups_view(gs@) =~= seq![v as int] + groups_view(rest0));
                        }
                        Some(gs)
                    },
                }
            } else {
                None
            }
        },
    }
}

/// The value of at most eight 16-bit groups as one 128-bit address.
fn groups_value(groups: &Vec<u16>) -> (r: u128)
    requires
        groups@.len() <= 8,
    ensures
        r as int == spec_groups_value(groups_view(groups@)),
{
    proof {
        lemma_parse_pow2_values();
    }
    let mut v: u128 = 0;
    let mut k: usize = 0;
    proof {
        assert(groups_view(groups@.take(0int)) =~= Seq::<int>::empty());
        vstd::arithmetic::power2::lemma_pow2_pos(0);
    }
    while k < groups.len()
        invariant
            k <= groups@.len() <= 8,
            v as int == spec_groups_value(groups_view(groups@.take(k as int))),
            v as int <= vstd::arithmetic::power2::pow2((16 * k) as nat) - 1,
            vstd::arithmetic::power2::pow2(16) == 0x10000,
            vstd::arithmetic::power2::pow2(128) == 0x100000000000000000000000000000000,
        decreases groups@.len() - k,
    {
        proof {
            vstd::arithmetic::power2::lemma_pow2_adds((16 * k) as nat, 16);
            if 16 * k + 16 < 128 {
                vstd::arithmetic::power2::lemma_pow2_strictly_increases(
                    (16 * k + 16) as nat,
                    128,
                );
            }
            assert((v as int) * 0x10000 + (groups@[k as int] as int) <= vstd::arithmetic::power2::pow2(
                (16 * k + 16) as nat,
            ) - 1) by (nonlinear_arith)
                requires
                    v as int <= vstd::arithmetic::power2::pow2((16 * k) as nat) - 1,
                    groups@[k as int] < 0x10000,
                    vstd::arithmetic::power2::pow2((16 * k + 16) as nat)
                        == vstd::arithmetic::power2::pow2((16 * k) as nat) * vstd::arithmetic::power2::pow2(
                        16,
                    ),
                    vstd::arithmetic::power2::pow2(16) == 0x10000,
            ;
            assert(groups_view(groups@.take(k + 1int)).drop_last() =~= groups_view(
                groups@.take(k as int),
            ));
            assert(groups_view(groups@.take(k + 1int)).last() == groups@[k as int] as int);
        }
        v = v * 0x10000 + (groups[k] as u128);
        k = k + 1;
    }
    proof {
        assert(groups@.take(groups@.len() as int) =~= groups@);
    }
    v
}

/// Ground values of the powers of two the group arithmetic leans on.
proof fn lemma_parse_pow2_values()
    ensures
        vstd::arithmetic::power2::pow2(16) == 0x10000,
        vstd::arithmetic::power2::pow2(128) == 0x100000000000000000000000000000000,
{
    vstd::arithmetic::power2::lemma2_to64();
    vstd::arithmetic::power2::lemma2_to64_rest();
    vstd::arithmetic::power2::lemma_pow2_adds(64, 64);
}

/// Parse a whole text as an IPv6 address.
fn parse_ipv6_text(s: &str) -> (r: Option<u128>)
    ensures
        r == spec_parse_ipv6(s@),
{
    let n = s.unicode_len();
    match find_compression(s, n) {
        None => {
            match read_groups(s, n, 0, n, true, 8) {
                Some(gs) => {
                    if gs.len() == 8 {
                        Some(groups_value(&gs))
                    } else {
                        None
                    }
                },
                None => None,
            }
        },
        Some(comp) => {
            let left: Option<Vec<u16>> = if comp == 0 {
                Some(Vec::new())
            } else {
                read_groups(s, n, 0, comp, false, 7)
            };
            let right: Option<Vec<u16>> = if comp + 2 == n {
                Some(Vec::new())
            } else {
                read_groups(s, n, comp + 2, n, true, 7)
            };
            match (left, right) {
                (Some(l), Some(rr)) => {
                    let l_len = l.len();
                    let r_len = rr.len();
                    if l_len <= 7 && r_len <= 7 - l_len {
                        let ghost lview = groups_view(l@);
                        let ghost rview = groups_view(rr@);
                        let mut full = l;
                        let mut z: usize = 0;
                        proof {
                            assert(groups_view(full@) =~= lview + Seq::<int>::new(
                                0nat,
                                |k: int| 0int,
                            ));
                        }
                        while z < 8 - l_len - r_len
                            invariant
                                l_len + r_len <= 7,
                                z <= 8 - l_len - r_len,
                                lview.len() == l_len,
                                full@.len() == l_len + z,
                                groups_view(full@) == lview + Seq::<int>::new(
                                    z as nat,
                                    |k: int| 0int,
                                ),
                            decreases 8 - l_len - r_len - z,
                        {
                            let ghost f0 = full@;
                            full.push(0);
                            z = z + 1;
                            proof {
                                assert(full@ =~= f0.push(0u16));
                                assert forall|k: int| 0 <= k < full@.len() implies groups_view(
                                    full@,
                                )[k] == (lview + Seq::<int>::new(z as nat, |m: int| 0int))[k] by {
                                    if k < f0.len() {
                                        assert(groups_view(f0)[k] == (lview + Seq::<int>::new(
                                            (z - 1) as nat,
                                            |m: int| 0int,
                                        ))[k]);
                                    }
                                }
                                assert(groups_view(full@) =~= lview + Seq::<int>::new(
                                    z as nat,
                                    |k: int| 0int,
                                ));
                            }
                        }
                        let mut tail = rr;
                        full.append(&mut tail);
                        proof {
                            assert(groups_view(full@) =~= lview + Seq::<int>::new(
                                (8 - l_len - r_len) as nat,
                                |k: int| 0int,
                            ) + rview);
                        }
                        Some(groups_value(&full))
                    } else {
                        None
                    }
                },
                _ => None,
            }
        },
    }
}

/// Parse a whole text as an IPv6 network.
fn parse_ipv6_net_text(s: &str) -> (r: Option<(u128, u8)>)
    ensures
        r == spec_parse_ipv6_net(s@),
{
    let n = s.unicode_len();
    match find_slash(s, n) {
        None => None,
        Some(sl) => {
            let sub = s.substring_char(0, sl);
            match parse_ipv6_text(sub) {
                None => None,
                Some(a) => {
                    match read_octet(s, n, sl + 1) {
                        None => None,
                        Some((p, j)) => {
                            if p <= 128 && j == n {
                                Some((a, p as u8))
                            } else {
                                None
                            }
                        },
                    }
                },
            }
        },
    }
}

/// Parse one user-written target: an IP address of either family, a CIDR
/// block of either family, or — permissively — anything else as a
/// hostname.  Addresses take precedence over networks.
pub fn target_from_str(s: &str) -> (r: Target)
    ensures
        match spec_parse_ipv4(s@) {
            Some(a) => r == Target::IP(IpAddress::V4(a)),
            None => match spec_parse_ipv6(s@) {
                Some(a) => r == Target::IP(IpAddress::V6(a)),
                None => match spec_parse_ipv4_net(s@) {
                    Some((a, p)) => r == Target::Network(
                        IpNetwork { addr: IpAddress::V4(a), prefix_len: p },
                    ),
                    None => match spec_parse_ipv6_net(s@) {
                        Some((a, p)) => r == Target::Network(
                            IpNetwork { addr: IpAddress::V6(a), prefix_len: p },
                        ),
                        None => r matches Target::Hostname(h) && h@ == s@,
                    },
                },
            },
        },
        r.well_formed(),
{
    match parse_ipv4_text(s) {
        Some(a) => {
            return Target::IP(IpAddress::V4(a));
        },
        None => {},
    }
    match parse_ipv6_text(s) {
        Some(a) => {
            return Target::IP(IpAddress::V6(a));
        },
        None => {},
    }
    match parse_ipv4_net_text(s) {
        Some((a, p)) => {
            return Target::Network(IpNetwork { addr: IpAddress::V4(a), prefix_len: p });
        },
        None => {},
    }
    match parse_ipv6_net_text(s) {
        Some((a, p)) => {
            return Target::Network(IpNetwork { addr: IpAddress::V6(a), prefix_len: p });
        },
        None => {},
    }
    Target::Hostname(s.to_owned())
}

impl core::str::FromStr for Target {
    type Err = String;

    /// Every string reads as some target; hostnames are the permissive
    /// fallback, so this never fails.
    fn from_str(s: &str) -> Result<Target, String> {
        Ok(target_from_str(s))
    }
}

} // verus!
