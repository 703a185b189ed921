//! Presentation and export layer of a local-network ARP host-discovery tool.
//!
//! The library selects a default network interface, renders pre-scan and
//! post-scan reports as text, sums IPv4 address-space sizes, and converts
//! scan results into JSON, YAML and CSV interchange text.

pub mod export;
pub mod iface;
pub mod net;
pub mod prescan;
pub mod results;
pub mod size;
pub mod text;

use vstd::prelude::*;
use crate::net::{Ipv4Address, MacAddress};

verus! {

/// Read-only configuration shared across render calls: whether hostname
/// resolution was enabled, plus optional forced ARP source and destination.
pub struct ScanOptions {
    pub resolve_hostname: bool,
    pub source_ipv4: Option<Ipv4Address>,
    pub destination_mac: Option<MacAddress>,
}

} // verus!
