//! Plain-value model of IP addresses and CIDR networks.
//!
//! Addresses are held as their numeric value (`u32` for IPv4, `u128` for
//! IPv6) so that every step of network expansion is ordinary integer
//! arithmetic with a full specification.

use vstd::prelude::*;
use vstd::arithmetic::power2::{
    lemma2_to64, lemma2_to64_rest, lemma_pow2_adds, lemma_pow2_pos, lemma_pow2_strictly_increases,
    lemma_pow2_unfold, pow2,
};

verus! {

/// One IP address, either family, as a plain integer.
#[derive(Clone, Copy, Debug, PartialEq, Eq, Structural)]
pub enum IpAddress {
    /// An IPv4 address as its 32-bit numeric value.
    V4(u32),
    /// An IPv6 address as its 128-bit numeric value.
    V6(u128),
}

/// One CIDR block: a base address together with a prefix length.
#[derive(Clone, Copy, Debug, PartialEq, Eq, Structural)]
pub struct IpNetwork {
    /// The address written before the slash.  It need not be the network
    /// address of the block; the prefix decides which bits count.
    pub addr: IpAddress,
    /// The number of leading bits that name the network.
    pub prefix_len: u8,
}

impl IpNetwork {
    /// The prefix length fits the address family.
    pub open spec fn well_formed(self) -> bool {
        match self.addr {
            IpAddress::V4(_) => self.prefix_len <= 32,
            IpAddress::V6(_) => self.prefix_len <= 128,
        }
    }

    /// How many host addresses expansion of this block yields.
    pub open spec fn host_count(self) -> int {
        match self.addr {
            IpAddress::V4(_) => v4_host_count(self.prefix_len),
            IpAddress::V6(_) => v6_host_count(self.prefix_len),
        }
    }

    /// The host addresses of this block, in ascending order.
    pub open spec fn hosts(self) -> Seq<IpAddress> {
        match self.addr {
            IpAddress::V4(a) => v4_hosts(a, self.prefix_len).map_values(|x: u32| IpAddress::V4(x)),
            IpAddress::V6(a) => v6_hosts(a, self.prefix_len).map_values(
                |x: u128| IpAddress::V6(x),
            ),
        }
    }
}

/// The number of addresses in an IPv4 block of the given prefix length.
pub open spec fn v4_block_size(prefix_len: u8) -> int {
    pow2((32 - prefix_len) as nat) as int
}

/// The number of usable host addresses in an IPv4 block: the network and
/// broadcast addresses are excluded below a /31.
pub open spec fn v4_host_count(prefix_len: u8) -> int {
    if prefix_len >= 31 {
        v4_block_size(prefix_len)
    } else {
        v4_block_size(prefix_len) - 2
    }
}

/// The lowest usable host address of the IPv4 block holding `addr`.
pub open spec fn v4_first_host(addr: u32, prefix_len: u8) -> int {
    let block = v4_block_size(prefix_len);
    let network = addr as int - (addr as int) % block;
    if prefix_len >= 31 {
        network
    } else {
        network + 1
    }
}

/// The usable host addresses of the IPv4 block holding `addr`, ascending.
pub open spec fn v4_hosts(addr: u32, prefix_len: u8) -> Seq<u32> {
    Seq::new(v4_host_count(prefix_len) as nat, |k: int| (v4_first_host(addr, prefix_len) + k) as u32)
}

/// The number of addresses in an IPv6 block of the given prefix length.
/// Every address of the block counts as a host.
pub open spec fn v6_host_count(prefix_len: u8) -> int {
    pow2((128 - prefix_len) as nat) as int
}

/// The lowest address of the IPv6 block holding `addr`.
pub open spec fn v6_first_host(addr: u128, prefix_len: u8) -> int {
    addr as int - (addr as int) % v6_host_count(prefix_len)
}

/// The addresses of the IPv6 block holding `addr`, ascending.
pub open spec fn v6_hosts(addr: u128, prefix_len: u8) -> Seq<u128> {
    Seq::new(v6_host_count(prefix_len) as nat, |k: int| (v6_first_host(addr, prefix_len) + k) as u128)
}

/// Ground values of the powers of two at the edges of both address spaces.
proof fn lemma_pow2_values()
    ensures
        pow2(1) == 2,
        pow2(32) == 0x100000000,
        pow2(63) == 0x8000000000000000,
        pow2(64) == 0x10000000000000000,
        pow2(127) == 0x80000000000000000000000000000000,
        pow2(128) == 0x100000000000000000000000000000000,
{
    lemma2_to64();
    lemma2_to64_rest();
    lemma_pow2_adds(64, 63);
    lemma_pow2_adds(64, 64);
}

/// Any power of two up to the 128-bit space fits in `u128`.
proof fn lemma_pow2_fits_u128(e: nat)
    requires
        e <= 127,
    ensures
        pow2(e) <= 0x80000000000000000000000000000000,
{
    lemma_pow2_values();
    if e < 127 {
        lemma_pow2_strictly_increases(e, 127);
    }
}

/// The block of `addr` stays inside the address space: the block start is a
/// multiple of the block size, and the block ends at or before `space`.
proof fn lemma_block_fits(addr: int, block: int, q: int, space: int)
    requires
        0 <= addr < space,
        0 < block,
        space == q * block,
    ensures
        0 <= addr - addr % block,
        addr % block <= addr,
        (addr - addr % block) + block <= space,
{
    let aq = addr / block;
    let ar = addr % block;
    vstd::arithmetic::div_mod::lemma_fundamental_div_mod(addr, block);
    vstd::arithmetic::div_mod::lemma_mod_bound(addr, block);
    assert(0 <= aq) by (nonlinear_arith)
        requires
            addr == block * aq + ar,
            0 <= ar < block,
            0 <= addr,
            0 < block,
    ;
    assert(aq + 1 <= q) by (nonlinear_arith)
        requires
            addr == block * aq + ar,
            0 <= ar < block,
            addr < space,
            space == q * block,
            0 < block,
    ;
    assert(block * aq + block <= space) by (nonlinear_arith)
        requires
            aq + 1 <= q,
            0 < block,
            space == q * block,
    ;
    assert(addr - ar == block * aq);
}

/// `2^e`, computed for the exponent range the address families need.
fn pow2_u128(e: u32) -> (r: u128)
    requires
        e <= 127,
    ensures
        r == pow2(e as nat),
{
    let mut r: u128 = 1;
    let mut i: u32 = 0;
    proof {
        lemma2_to64();
    }
    while i < e
        invariant
            i <= e <= 127,
            r == pow2(i as nat),
        decreases e - i,
    {
        proof {
            lemma_pow2_adds(i as nat, 1);
            lemma_pow2_unfold(1);
            lemma_pow2_values();
            lemma_pow2_fits_u128((i + 1) as nat);
        }
        r = r * 2;
        i = i + 1;
    }
    r
}

/// Expand a CIDR block into its usable host addresses, in ascending order.
///
/// For IPv4 the network and broadcast addresses are excluded below a /31;
/// for IPv6 every address of the block is a host.  The count bound is a
/// machine limit: the result must fit in one vector.
pub fn network_hosts(network: &IpNetwork) -> (r: Vec<IpAddress>)
    requires
        network.well_formed(),
        network.host_count() <= usize::MAX,
    ensures
        r@ == network.hosts(),
        r@.len() == network.host_count(),
{
    match network.addr {
        IpAddress::V4(addr) => {
            let prefix_len = network.prefix_len;
            let block: u128 = pow2_u128(32 - prefix_len as u32);
            proof {
                lemma_pow2_values();
                lemma_pow2_pos((32 - prefix_len) as nat);
                lemma_pow2_adds((32 - prefix_len) as nat, prefix_len as nat);
                assert(pow2(32) as int == (pow2(prefix_len as nat) as int) * (block as int))
                    by (nonlinear_arith)
                    requires
                        pow2(32) == pow2((32 - prefix_len) as nat) * pow2(prefix_len as nat),
                        block == pow2((32 - prefix_len) as nat),
                ;
                lemma_block_fits(
                    addr as int,
                    block as int,
                    pow2(prefix_len as nat) as int,
                    pow2(32) as int,
                );
                if prefix_len < 31 {
                    lemma_pow2_unfold(1);
                    lemma_pow2_strictly_increases(1, (32 - prefix_len) as nat);
                }
            }
            let network_addr: u128 = addr as u128 - (addr as u128) % block;
            let (first, count): (u128, u128) = if prefix_len >= 31 {
                (network_addr, block)
            } else {
                (network_addr + 1, block - 2)
            };
            let ghost spec_hosts = network.hosts();
            proof {
                assert forall|j: int| 0 <= j < count implies spec_hosts[j] == IpAddress::V4(
                    (first + j) as u32,
                ) by {
                    assert(v4_hosts(addr, prefix_len)[j] == (v4_first_host(addr, prefix_len)
                        + j) as u32);
                }
            }
            let mut out: Vec<IpAddress> = Vec::new();
            let mut k: u128 = 0;
            while k < count
                invariant
                    count == network.host_count(),
                    first + count <= pow2(32),
                    pow2(32) == 0x100000000,
                    spec_hosts == network.hosts(),
                    spec_hosts.len() == count,
                    forall|j: int|
                        0 <= j < count ==> spec_hosts[j] == IpAddress::V4((first + j) as u32),
                    k <= count,
                    out@.len() == k,
                    out@ == spec_hosts.take(k as int),
                decreases count - k,
            {
                out.push(IpAddress::V4((first + k) as u32));
                k = k + 1;
                proof {
                    assert(out@ =~= spec_hosts.take(k as int));
                }
            }
            proof {
                assert(out@ =~= spec_hosts);
            }
            out
        },
        IpAddress::V6(addr) => {
            let prefix_len = network.prefix_len;
            proof {
                lemma_pow2_values();
                if prefix_len == 0 {
                    assert(usize::MAX < pow2(128));
                    assert(false);
                }
            }
            let block: u128 = pow2_u128(128 - prefix_len as u32);
            proof {
                lemma_pow2_pos((128 - prefix_len) as nat);
                lemma_pow2_adds((128 - prefix_len) as nat, prefix_len as nat);
                assert(pow2(128) as int == (pow2(prefix_len as nat) as int) * (block as int))
                    by (nonlinear_arith)
                    requires
                        pow2(128) == pow2((128 - prefix_len) as nat) * pow2(prefix_len as nat),
                        block == pow2((128 - prefix_len) as nat),
                ;
                lemma_block_fits(
                    addr as int,
                    block as int,
                    pow2(prefix_len as nat) as int,
                    pow2(128) as int,
                );
            }
            let first: u128 = addr - addr % block;
            let count: u128 = block;
            let ghost spec_hosts = network.hosts();
            proof {
                assert forall|j: int| 0 <= j < count implies spec_hosts[j] == IpAddress::V6(
                    (first + j) as u128,
                ) by {
                    assert(v6_hosts(addr, prefix_len)[j] == (v6_first_host(addr, prefix_len)
                        + j) as u128);
                }
            }
            let mut out: Vec<IpAddress> = Vec::new();
            let mut k: u128 = 0;
            while k < count
                invariant
                    count == network.host_count(),
                    first + count <= pow2(128),
                    pow2(128) == 0x100000000000000000000000000000000,
                    spec_hosts == network.hosts(),
                    spec_hosts.len() == count,
                    forall|j: int|
                        0 <= j < count ==> spec_hosts[j] == IpAddress::V6((first + j) as u128),
                    k <= count,
                    out@.len() == k,
                    out@ == spec_hosts.take(k as int),
                decreases count - k,
            {
                out.push(IpAddress::V6(first + k));
                k = k + 1;
                proof {
                    assert(out@ =~= spec_hosts.take(k as int));
                }
            }
            proof {
                assert(out@ =~= spec_hosts);
            }
            out
        },
    }
}

} // verus!
