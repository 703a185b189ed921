//! Address-space sizing of IPv4 scan targets. IPv6 is rejected as a whole:
//! the address-resolution protocol this tool probes with has no IPv6
//! analogue, so an IPv6 entry is an unsupported input, not a zero.

use vstd::prelude::*;
use vstd::string::*;
use vstd::arithmetic::power2::{pow2, lemma2_to64, lemma_pow2_strictly_increases};
use vstd::arithmetic::mul::lemma_mul_inequality;
use crate::net::IpNet;

verus! {

/// The unsupported-input error of this layer: a calculation met a network
/// family the scan protocol cannot probe.
#[derive(Clone, Copy, PartialEq, Eq, Structural, Debug)]
pub enum ScanError {
    UnsupportedIpv6,
}

impl ScanError {
    /// The diagnostic text a command-line boundary prints before giving up.
    pub fn message(&self) -> (r: String)
        ensures
            r@ == "IPv6 networks are not supported by the ARP protocol"@,
    {
        let mut s = String::new();
        s.append("IPv6 networks are not supported by the ARP protocol");
        proof {
            assert(s@ =~= "IPv6 networks are not supported by the ARP protocol"@);
        }
        s
    }
}

/// The number of addresses an IPv4 network with this prefix length spans.
pub open spec fn v4_network_size(prefix: nat) -> nat {
    pow2((32 - prefix) as nat)
}

/// The arithmetic sum of the IPv4 address counts of a network list; an IPv6
/// entry contributes nothing (the calculation rejects such a list anyway).
pub open spec fn total_v4_size(s: Seq<IpNet>) -> int
    decreases s.len(),
{
    if s.len() == 0 {
        0
    } else {
        total_v4_size(s.drop_last()) + match s.last() {
            IpNet::V4 { addr, prefix } => v4_network_size(prefix as nat) as int,
            IpNet::V6 { .. } => 0,
        }
    }
}

/// Whether every entry of a network list is IPv4.
pub open spec fn all_v4(s: Seq<IpNet>) -> bool {
    forall|i: int| 0 <= i < s.len() ==> s[i] is V4
}

/// The address count of one IPv4 network, from its prefix length.
fn v4_count(prefix: u8) -> (r: u64)
    requires
        prefix <= 32,
    ensures
        r == v4_network_size(prefix as nat),
        r <= 0x1_0000_0000,
{
    let k: u8 = 32 - prefix;
    let mut r: u64 = 1;
    let mut j: u8 = 0;
    proof {
        lemma2_to64();
    }
    while j < k
        invariant
            j <= k <= 32,
            r == pow2(j as nat),
        decreases k - j,
    {
        proof {
            lemma_pow2_strictly_increases(j as nat, 32);
            lemma2_to64();
        }
        r = r * 2;
        j = j + 1;
        proof {
            assert(r == pow2(j as nat)) by {
                vstd::arithmetic::power2::lemma_pow2_unfold(j as nat);
            }
        }
    }
    proof {
        if (k as nat) < 32 {
            lemma_pow2_strictly_increases(k as nat, 32);
        }
        lemma2_to64();
    }
    r
}

/// Sums the address-space sizes of the given IPv4 networks.
///
/// Succeeds exactly when no entry is IPv6, and then returns the arithmetic
/// sum of each network's address count; an IPv6 entry anywhere in the list
/// yields the unsupported-input error instead.
pub fn compute_network_size(ip_networks: &Vec<IpNet>) -> (r: Result<u128, ScanError>)
    requires
        forall|i: int| 0 <= i < ip_networks@.len() ==> (#[trigger] ip_networks@[i]).wf(),
    ensures
        r is Ok <==> all_v4(ip_networks@),
        r is Ok ==> r->Ok_0 == total_v4_size(ip_networks@),
        r is Err ==> r->Err_0 == ScanError::UnsupportedIpv6,
{
    let mut total: u128 = 0;
    let mut i: usize = 0;
    let n: usize = ip_networks.len();
    while i < n
        invariant
            i <= n == ip_networks@.len(),
            forall|k: int| 0 <= k < ip_networks@.len() ==> (#[trigger] ip_networks@[k]).wf(),
            forall|k: int| 0 <= k < i ==> ip_networks@[k] is V4,
            total == total_v4_size(ip_networks@.take(i as int)),
            total <= i * 0x1_0000_0000,
        decreases n - i,
    {
        let size: u64 = match &ip_networks[i] {
            IpNet::V4 { addr, prefix } => v4_count(*prefix),
            IpNet::V6 { .. } => {
                return Err(ScanError::UnsupportedIpv6);
            },
        };
        proof {
            lemma_mul_inequality(i + 1, ip_networks@.len() as int, 0x1_0000_0000);
            lemma_mul_inequality(
                ip_networks@.len() as int,
                0xFFFF_FFFF_FFFF_FFFF,
                0x1_0000_0000,
            );
            assert(ip_networks@.take(i + 1).drop_last() =~= ip_networks@.take(i as int));
            assert(ip_networks@.take(i + 1).last() == ip_networks@[i as int]);
        }
        total = total + size as u128;
        i = i + 1;
    }
    proof {
        assert(ip_networks@.take(n as int) =~= ip_networks@);
    }
    Ok(total)
}

} // verus!
