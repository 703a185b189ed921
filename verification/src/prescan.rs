//! The pre-scan summary: selected interface, the first few target networks
//! with an overflow count, and any forced ARP overrides.

use vstd::prelude::*;
use vstd::string::*;
use crate::iface::NetworkInterface;
use crate::net::{ipv4_seq, ipv4_string, mac_seq, mac_string, network_seq, network_string, IpNet};
use crate::text::{dec_seq, dec_string};
use crate::ScanOptions;

verus! {

/// The display texts of the given networks joined by ", ".
pub open spec fn joined_networks(s: Seq<IpNet>) -> Seq<char>
    decreases s.len(),
{
    if s.len() == 0 {
        Seq::empty()
    } else if s.len() == 1 {
        network_seq(s[0])
    } else {
        joined_networks(s.drop_last()) + ", "@ + network_seq(s.last())
    }
}

/// The network list as displayed: the first five networks joined by ", ",
/// and, where more were supplied, a count of the remainder.
pub open spec fn network_list_seq(s: Seq<IpNet>) -> Seq<char> {
    if s.len() <= 5 {
        joined_networks(s)
    } else {
        joined_networks(s.take(5)) + " ("@ + dec_seq((s.len() - 5) as nat) + " more)"@
    }
}

/// The whole pre-scan summary: the selected interface with its target
/// list, then one line per forced override that is set.
pub open spec fn prescan_seq(
    networks: Seq<IpNet>,
    interface_name: Seq<char>,
    options: ScanOptions,
) -> Seq<char> {
    "\n"@ + "Selected interface "@ + interface_name + " with IP "@ + network_list_seq(networks)
        + "\n"@ + (match options.source_ipv4 {
        Some(ip) => "The ARP source IPv4 will be forced to "@ + ipv4_seq(ip) + "\n"@,
        None => Seq::empty(),
    }) + (match options.destination_mac {
        Some(mac) => "The ARP destination MAC will be forced to "@ + mac_seq(mac) + "\n"@,
        None => Seq::empty(),
    })
}

fn append_network_list(out: &mut String, ip_networks: &Vec<IpNet>)
    ensures
        final(out)@ == old(out)@ + network_list_seq(ip_networks@),
{
    let ghost s = ip_networks@;
    let total: usize = ip_networks.len();
    let n: usize = if total > 5 {
        5
    } else {
        total
    };
    let mut i: usize = 0;
    proof {
        assert(joined_networks(s.take(0)) =~= Seq::<char>::empty());
        assert(out@ =~= old(out)@ + joined_networks(s.take(0)));
    }
    while i < n
        invariant
            i <= n <= s.len() == ip_networks@.len(),
            ip_networks@ == s,
            n == (if s.len() > 5 {
                5int
            } else {
                s.len() as int
            }),
            out@ == old(out)@ + joined_networks(s.take(i as int)),
        decreases n - i,
    {
        if i > 0 {
            out.append(", ");
        }
        let t = network_string(&ip_networks[i]);
        out.append(t.as_str());
        proof {
            assert(s.take(i + 1).drop_last() =~= s.take(i as int));
            assert(s.take(i + 1).last() == s[i as int]);
            if i == 0 {
                assert(s.take(1).len() == 1);
                assert(s.take(1)[0] == s[0]);
                assert(out@ =~= old(out)@ + joined_networks(s.take(1)));
            } else {
                assert(out@ =~= old(out)@ + joined_networks(s.take(i as int)) + ", "@
                    + network_seq(s[i as int]));
                assert(out@ =~= old(out)@ + joined_networks(s.take(i + 1)));
            }
        }
        i = i + 1;
    }
    if total > 5 {
        out.append(" (");
        let d = dec_string((total - 5) as u128);
        out.append(d.as_str());
        out.append(" more)");
        proof {
            assert(out@ =~= old(out)@ + network_list_seq(s));
        }
    } else {
        proof {
            assert(s.take(n as int) =~= s);
            assert(out@ =~= old(out)@ + network_list_seq(s));
        }
    }
}

/// Renders the pre-scan summary for the selected interface, the target
/// networks and the configured overrides.
pub fn display_prescan_details(
    ip_networks: &Vec<IpNet>,
    selected_interface: &NetworkInterface,
    scan_options: &ScanOptions,
) -> (r: String)
    ensures
        r@ == prescan_seq(ip_networks@, selected_interface.name@, *scan_options),
{
    let mut out = String::new();
    out.append("\n");
    out.append("Selected interface ");
    out.append(selected_interface.name.as_str());
    out.append(" with IP ");
    append_network_list(&mut out, ip_networks);
    out.append("\n");
    let ghost mid = out@;
    match &scan_options.source_ipv4 {
        Some(ip) => {
            out.append("The ARP source IPv4 will be forced to ");
            let t = ipv4_string(ip);
            out.append(t.as_str());
            out.append("\n");
        },
        None => {},
    }
    let ghost mid2 = out@;
    match &scan_options.destination_mac {
        Some(mac) => {
            out.append("The ARP destination MAC will be forced to ");
            let t = mac_string(mac);
            out.append(t.as_str());
            out.append("\n");
        },
        None => {},
    }
    proof {
        assert(out@ =~= prescan_seq(ip_networks@, selected_interface.name@, *scan_options));
    }
    out
}

} // verus!
