//! Plain-value models of the network data this layer reads: IPv4 addresses,
//! hardware (MAC) addresses, and networks in CIDR form, with their text
//! renderings.

use vstd::prelude::*;
use vstd::string::*;
use crate::text::{dec_digit, dec_digit_str, dec_seq, dec_string};

verus! {

/// An IPv4 address as its four dotted-quad octets.
#[derive(Clone, Copy, PartialEq, Eq, Structural, Debug)]
pub struct Ipv4Address {
    pub o1: u8,
    pub o2: u8,
    pub o3: u8,
    pub o4: u8,
}

impl Ipv4Address {
    /// The 32-bit numeric value of the address; display and export order
    /// sorts ascending by this value.
    pub open spec fn value(self) -> int {
        self.o1 * 0x1000000 + self.o2 * 0x10000 + self.o3 * 0x100 + self.o4
    }
}

/// The dotted-quad text of an IPv4 address.
pub open spec fn ipv4_seq(ip: Ipv4Address) -> Seq<char> {
    dec_seq(ip.o1 as nat) + seq!['.'] + dec_seq(ip.o2 as nat) + seq!['.'] + dec_seq(ip.o3 as nat)
        + seq!['.'] + dec_seq(ip.o4 as nat)
}

/// Renders an IPv4 address as dotted-quad text.
pub fn ipv4_string(ip: &Ipv4Address) -> (r: String)
    ensures
        r@ == ipv4_seq(*ip),
{
    let mut s = dec_string(ip.o1 as u128);
    s.append(".");
    let part = dec_string(ip.o2 as u128);
    s.append(part.as_str());
    s.append(".");
    let part = dec_string(ip.o3 as u128);
    s.append(part.as_str());
    s.append(".");
    let part = dec_string(ip.o4 as u128);
    s.append(part.as_str());
    proof {
        assert("."@ =~= seq!['.']) by {
            reveal_strlit(".");
        }
        assert(s@ =~= ipv4_seq(*ip));
    }
    s
}

/// A hardware address as its six bytes.
#[derive(Clone, Copy, PartialEq, Eq, Structural, Debug)]
pub struct MacAddress {
    pub b0: u8,
    pub b1: u8,
    pub b2: u8,
    pub b3: u8,
    pub b4: u8,
    pub b5: u8,
}

/// The lowercase hexadecimal digit character for a value below sixteen.
pub open spec fn hex_digit(n: nat) -> char {
    if n < 10 {
        dec_digit(n)
    } else if n == 10 {
        'a'
    } else if n == 11 {
        'b'
    } else if n == 12 {
        'c'
    } else if n == 13 {
        'd'
    } else if n == 14 {
        'e'
    } else {
        'f'
    }
}

/// One byte as two lowercase hexadecimal digits.
pub open spec fn byte_hex(b: nat) -> Seq<char> {
    seq![hex_digit(b / 16), hex_digit(b % 16)]
}

/// The colon-separated lowercase hexadecimal text of a hardware address.
pub open spec fn mac_seq(m: MacAddress) -> Seq<char> {
    byte_hex(m.b0 as nat) + seq![':'] + byte_hex(m.b1 as nat) + seq![':'] + byte_hex(m.b2 as nat)
        + seq![':'] + byte_hex(m.b3 as nat) + seq![':'] + byte_hex(m.b4 as nat) + seq![':']
        + byte_hex(m.b5 as nat)
}

pub(crate) fn hex_digit_str(n: u8) -> (r: &'static str)
    requires
        n < 16,
    ensures
        r@ == seq![hex_digit(n as nat)],
{
    if n < 10 {
        dec_digit_str(n as u128)
    } else {
        let r: &'static str = if n == 10 {
            "a"
        } else if n == 11 {
            "b"
        } else if n == 12 {
            "c"
        } else if n == 13 {
            "d"
        } else if n == 14 {
            "e"
        } else {
            "f"
        };
        proof {
            reveal_strlit("a");
            reveal_strlit("b");
            reveal_strlit("c");
            reveal_strlit("d");
            reveal_strlit("e");
            reveal_strlit("f");
            assert(r@ =~= seq![hex_digit(n as nat)]);
        }
        r
    }
}

fn append_byte_hex(s: &mut String, b: u8)
    ensures
        final(s)@ == old(s)@ + byte_hex(b as nat),
{
    s.append(hex_digit_str(b / 16));
    s.append(hex_digit_str(b % 16));
    proof {
        assert(s@ =~= old(s)@ + byte_hex(b as nat));
    }
}

/// Renders a hardware address as colon-separated lowercase hexadecimal text.
pub fn mac_string(m: &MacAddress) -> (r: String)
    ensures
        r@ == mac_seq(*m),
{
    let mut s = String::new();
    append_byte_hex(&mut s, m.b0);
    s.append(":");
    append_byte_hex(&mut s, m.b1);
    s.append(":");
    append_byte_hex(&mut s, m.b2);
    s.append(":");
    append_byte_hex(&mut s, m.b3);
    s.append(":");
    append_byte_hex(&mut s, m.b4);
    s.append(":");
    append_byte_hex(&mut s, m.b5);
    proof {
        assert(":"@ =~= seq![':']) by {
            reveal_strlit(":");
        }
        assert(s@ =~= mac_seq(*m));
    }
    s
}

/// A scan-target network: an IPv4 network as address plus prefix length, or
/// an IPv6 network carried only as its display text, since this layer reads
/// nothing else of it and the scan protocol has no IPv6 analogue.
pub enum IpNet {
    V4 { addr: Ipv4Address, prefix: u8 },
    V6 { text: String },
}

impl Clone for IpNet {
    fn clone(&self) -> (r: Self)
        ensures
            r == *self,
    {
        match self {
            IpNet::V4 { addr, prefix } => IpNet::V4 { addr: *addr, prefix: *prefix },
            IpNet::V6 { text } => IpNet::V6 { text: text.clone() },
        }
    }
}

impl IpNet {
    /// Validity: an IPv4 prefix length never exceeds the address width.
    pub open spec fn wf(self) -> bool {
        self is V4 ==> self->prefix <= 32
    }
}

/// The display text of a network: CIDR form for IPv4, the carried text for
/// IPv6.
pub open spec fn network_seq(n: IpNet) -> Seq<char> {
    match n {
        IpNet::V4 { addr, prefix } => ipv4_seq(addr) + seq!['/'] + dec_seq(prefix as nat),
        IpNet::V6 { text } => text@,
    }
}

/// Renders a network as its display text.
pub fn network_string(n: &IpNet) -> (r: String)
    ensures
        r@ == network_seq(*n),
{
    match n {
        IpNet::V4 { addr, prefix } => {
            let mut s = ipv4_string(addr);
            s.append("/");
            let part = dec_string(*prefix as u128);
            s.append(part.as_str());
            proof {
                assert("/"@ =~= seq!['/']) by {
                    reveal_strlit("/");
                }
                assert(s@ =~= network_seq(*n));
            }
            s
        },
        IpNet::V6 { text } => text.clone(),
    }
}

} // verus!
