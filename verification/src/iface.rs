//! Network interfaces as this layer reads them, default-interface
//! selection, and the interface listing.

use vstd::prelude::*;
use vstd::string::*;
use crate::net::{mac_seq, network_seq, IpNet, MacAddress};
use crate::text::{append_padded, dec_seq, dec_string, pad_right};

verus! {

/// One operating-system network interface, as the fields this layer reads:
/// name, optional hardware address, assigned networks in OS order, and the
/// up and loopback flags.
pub struct NetworkInterface {
    pub name: String,
    pub mac: Option<MacAddress>,
    pub ips: Vec<IpNet>,
    pub up: bool,
    pub loopback: bool,
}

/// Whether an interface qualifies as the default scan interface: hardware
/// address present, at least one assigned address, administratively up, not
/// loopback, and at least one IPv4 address among its assignments.
pub open spec fn qualifies(i: NetworkInterface) -> bool {
    &&& i.mac is Some
    &&& i.ips@.len() > 0
    &&& i.up
    &&& !i.loopback
    &&& exists|k: int| 0 <= k < i.ips@.len() && i.ips@[k] is V4
}

/// The looser readiness shown by the interface listing: up, not loopback,
/// and at least one assigned address. On purpose weaker than `qualifies`:
/// a rough "probably scannable" count, not a safe single choice.
pub open spec fn ready(i: NetworkInterface) -> bool {
    i.up && !i.loopback && i.ips@.len() > 0
}

/// Whether index `i` is the first qualifying interface of the list.
pub open spec fn is_first_qualifying(s: Seq<NetworkInterface>, i: int) -> bool {
    &&& 0 <= i < s.len()
    &&& qualifies(s[i])
    &&& forall|j: int| 0 <= j < i ==> !qualifies(#[trigger] s[j])
}

proof fn lemma_first_qualifying_unique(s: Seq<NetworkInterface>, i: int, j: int)
    requires
        is_first_qualifying(s, i),
        is_first_qualifying(s, j),
    ensures
        i == j,
{
}

fn has_ipv4(ips: &Vec<IpNet>) -> (r: bool)
    ensures
        r == exists|k: int| 0 <= k < ips@.len() && ips@[k] is V4,
{
    let n: usize = ips.len();
    let mut i: usize = 0;
    while i < n
        invariant
            i <= n == ips@.len(),
            forall|k: int| 0 <= k < i ==> !(#[trigger] ips@[k] is V4),
        decreases n - i,
    {
        match &ips[i] {
            IpNet::V4 { .. } => {
                return true;
            },
            IpNet::V6 { .. } => {},
        }
        i = i + 1;
    }
    false
}

fn interface_qualifies(iface: &NetworkInterface) -> (r: bool)
    ensures
        r == qualifies(*iface),
{
    if iface.mac.is_none() {
        return false;
    }
    if iface.ips.len() == 0 || !iface.up || iface.loopback {
        return false;
    }
    has_ipv4(&iface.ips)
}

/// Finds the default interface for scans: the first interface, in the order
/// the operating system reported, that qualifies; none where none does.
pub fn select_default_interface<'a>(interfaces: &'a Vec<NetworkInterface>) -> (r: Option<
    &'a NetworkInterface,
>)
    ensures
        match r {
            Some(x) => exists|i: int| is_first_qualifying(interfaces@, i) && *x == interfaces@[i],
            None => forall|i: int|
                0 <= i < interfaces@.len() ==> !qualifies(#[trigger] interfaces@[i]),
        },
{
    let n: usize = interfaces.len();
    let mut i: usize = 0;
    while i < n
        invariant
            i <= n == interfaces@.len(),
            forall|k: int| 0 <= k < i ==> !qualifies(#[trigger] interfaces@[k]),
        decreases n - i,
    {
        if interface_qualifies(&interfaces[i]) {
            proof {
                assert(is_first_qualifying(interfaces@, i as int));
            }
            return Some(&interfaces[i]);
        }
        i = i + 1;
    }
    None
}

/// The up/down indicator of the listing, with its color escapes.
pub open spec fn up_text(up: bool) -> Seq<char> {
    if up {
        "\u{1b}[32m\u{2714}\u{1b}[0m UP"@
    } else {
        "\u{1b}[31m\u{2716}\u{1b}[0m DOWN"@
    }
}

/// The hardware-address cell of the listing, or its placeholder.
pub open spec fn mac_text(m: Option<MacAddress>) -> Seq<char> {
    match m {
        Some(mac) => mac_seq(mac),
        None => "No MAC address"@,
    }
}

/// The first assigned address of an interface, or empty where none is.
pub open spec fn first_ip_text(ips: Seq<IpNet>) -> Seq<char> {
    if ips.len() > 0 {
        network_seq(ips[0])
    } else {
        Seq::empty()
    }
}

/// One line of the interface listing: name, state, hardware address and
/// first address, each left-aligned in its column.
pub open spec fn interface_row(i: NetworkInterface) -> Seq<char> {
    pad_right(i.name@, 20, ' ') + seq![' '] + pad_right(up_text(i.up), 18, ' ') + seq![' ']
        + pad_right(mac_text(i.mac), 20, ' ') + seq![' '] + first_ip_text(i.ips@) + "\n"@
}

/// All listing lines in order.
pub open spec fn interface_rows(s: Seq<NetworkInterface>) -> Seq<char>
    decreases s.len(),
{
    if s.len() == 0 {
        Seq::empty()
    } else {
        interface_rows(s.drop_last()) + interface_row(s.last())
    }
}

/// How many interfaces of the list are ready in the loose sense.
pub open spec fn ready_count(s: Seq<NetworkInterface>) -> int
    decreases s.len(),
{
    if s.len() == 0 {
        0
    } else {
        ready_count(s.drop_last()) + if ready(s.last()) {
            1int
        } else {
            0int
        }
    }
}

/// The closing line naming the default interface, where one qualifies.
pub open spec fn default_line(s: Seq<NetworkInterface>) -> Seq<char> {
    if exists|i: int| is_first_qualifying(s, i) {
        "Default network interface will be "@ + s[choose|i: int| is_first_qualifying(s, i)].name@
            + "\n"@
    } else {
        Seq::empty()
    }
}

/// The whole interface listing: one line per interface, the two counts, and
/// the default interface where one qualifies.
pub open spec fn interfaces_report(s: Seq<NetworkInterface>) -> Seq<char> {
    "\n"@ + interface_rows(s) + "\n"@ + "Found "@ + dec_seq(s.len()) + " network interfaces, "@
        + dec_seq(ready_count(s) as nat) + " seems ready for ARP scans\n"@ + default_line(s)
        + "\n"@
}

#[verifier::rlimit(50)]
fn append_interface_row(out: &mut String, iface: &NetworkInterface)
    ensures
        final(out)@ == old(out)@ + interface_row(*iface),
{
    append_padded(out, iface.name.as_str(), 20, true);
    out.append(" ");
    if iface.up {
        append_padded(out, "\u{1b}[32m\u{2714}\u{1b}[0m UP", 18, true);
    } else {
        append_padded(out, "\u{1b}[31m\u{2716}\u{1b}[0m DOWN", 18, true);
    }
    out.append(" ");
    match &iface.mac {
        Some(mac) => {
            let m = crate::net::mac_string(mac);
            append_padded(out, m.as_str(), 20, true);
        },
        None => append_padded(out, "No MAC address", 20, true),
    }
    out.append(" ");
    if iface.ips.len() > 0 {
        let ip = crate::net::network_string(&iface.ips[0]);
        out.append(ip.as_str());
    }
    out.append("\n");
    proof {
        assert(" "@ =~= seq![' ']) by {
            reveal_strlit(" ");
        }
        assert(out@ =~= old(out)@ + interface_row(*iface));
    }
}

/// Renders the interface listing: per-interface lines, a count of all
/// interfaces and of the loosely ready ones, and the qualifying default
/// interface where there is one.
pub fn show_interfaces(interfaces: &Vec<NetworkInterface>) -> (r: String)
    ensures
        r@ == interfaces_report(interfaces@),
{
    let ghost s = interfaces@;
    let mut out = String::new();
    out.append("\n");
    let n: usize = interfaces.len();
    let mut ready_n: usize = 0;
    let mut i: usize = 0;
    proof {
        assert(interface_rows(s.take(0)) =~= Seq::<char>::empty());
        assert(out@ =~= "\n"@ + interface_rows(s.take(0)));
        assert(ready_count(s.take(0)) == 0);
    }
    while i < n
        invariant
            i <= n == s.len(),
            interfaces@ == s,
            out@ == "\n"@ + interface_rows(s.take(i as int)),
            ready_n == ready_count(s.take(i as int)),
            ready_n <= i,
        decreases n - i,
    {
        append_interface_row(&mut out, &interfaces[i]);
        if interfaces[i].up && !interfaces[i].loopback && interfaces[i].ips.len() > 0 {
            ready_n = ready_n + 1;
        }
        proof {
            assert(s.take(i + 1).drop_last() =~= s.take(i as int));
            assert(s.take(i + 1).last() == s[i as int]);
            assert(out@ =~= "\n"@ + interface_rows(s.take(i + 1)));
        }
        i = i + 1;
    }
    proof {
        assert(s.take(n as int) =~= s);
    }
    out.append("\n");
    out.append("Found ");
    let d = dec_string(n as u128);
    out.append(d.as_str());
    out.append(" network interfaces, ");
    let d = dec_string(ready_n as u128);
    out.append(d.as_str());
    out.append(" seems ready for ARP scans\n");
    let ghost before_default = out@;
    match select_default_interface(interfaces) {
        Some(default_interface) => {
            out.append("Default network interface will be ");
            out.append(default_interface.name.as_str());
            out.append("\n");
            proof {
                let i = choose|i: int| is_first_qualifying(s, i);
                let w = choose|w: int|
                    is_first_qualifying(s, w) && *default_interface == s[w];
                lemma_first_qualifying_unique(s, i, w);
                assert(out@ =~= before_default + default_line(s));
            }
        },
        None => {
            proof {
                assert(default_line(s) =~= Seq::<char>::empty());
                assert(out@ =~= before_default + default_line(s));
            }
        },
    }
    out.append("\n");
    proof {
        assert(out@ =~= interfaces_report(s));
    }
    out
}

} // verus!
