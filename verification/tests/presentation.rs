use arp_scan::iface::{select_default_interface, show_interfaces, NetworkInterface};
use arp_scan::net::{ipv4_string, mac_string, network_string, IpNet, Ipv4Address, MacAddress};
use arp_scan::prescan::display_prescan_details;
use arp_scan::results::{
    arp_phrase_string, display_scan_results, duration_string, hosts_phrase_string,
    packets_phrase_string, sort_by_ipv4, ResponseSummary, TargetDetails,
};
use arp_scan::size::{compute_network_size, ScanError};
use arp_scan::ScanOptions;

fn ip(o1: u8, o2: u8, o3: u8, o4: u8) -> Ipv4Address {
    Ipv4Address { o1, o2, o3, o4 }
}

fn mac(b0: u8, b1: u8, b2: u8, b3: u8, b4: u8, b5: u8) -> MacAddress {
    MacAddress { b0, b1, b2, b3, b4, b5 }
}

fn v4net(o1: u8, o2: u8, o3: u8, o4: u8, prefix: u8) -> IpNet {
    IpNet::V4 { addr: ip(o1, o2, o3, o4), prefix }
}

fn iface(name: &str, has_mac: bool, ips: Vec<IpNet>, up: bool, loopback: bool) -> NetworkInterface {
    NetworkInterface {
        name: String::from(name),
        mac: if has_mac { Some(mac(0xaa, 0xbb, 0xcc, 0, 0, 1)) } else { None },
        ips,
        up,
        loopback,
    }
}

fn options(resolve: bool) -> ScanOptions {
    ScanOptions { resolve_hostname: resolve, source_ipv4: None, destination_mac: None }
}

#[test]
fn select_default_skips_unqualified() {
    let interfaces = vec![
        iface("lo", true, vec![v4net(127, 0, 0, 1, 8)], true, true),
        iface("down0", true, vec![v4net(10, 0, 0, 1, 24)], false, false),
        iface("nomac0", false, vec![v4net(10, 0, 1, 1, 24)], true, false),
        iface("noip0", true, vec![], true, false),
        iface(
            "six0",
            true,
            vec![IpNet::V6 { text: String::from("fe80::1/64") }],
            true,
            false,
        ),
        iface("eth1", true, vec![v4net(192, 168, 1, 2, 24)], true, false),
    ];
    let chosen = select_default_interface(&interfaces).expect("one interface qualifies");
    assert_eq!(chosen.name, "eth1");
}

#[test]
fn select_default_none_when_no_candidate() {
    let interfaces = vec![
        iface("lo", true, vec![v4net(127, 0, 0, 1, 8)], true, true),
        iface("down0", true, vec![v4net(10, 0, 0, 1, 24)], false, false),
    ];
    assert!(select_default_interface(&interfaces).is_none());
}

#[test]
fn select_default_takes_first_in_os_order() {
    let interfaces = vec![
        iface("eth0", true, vec![v4net(10, 0, 0, 2, 24)], true, false),
        iface("eth1", true, vec![v4net(192, 168, 1, 2, 24)], true, false),
    ];
    let chosen = select_default_interface(&interfaces).expect("both qualify");
    assert_eq!(chosen.name, "eth0");
}

#[test]
fn select_default_accepts_ipv6_beside_ipv4() {
    let interfaces = vec![iface(
        "mix0",
        true,
        vec![
            IpNet::V6 { text: String::from("fe80::2/64") },
            v4net(172, 16, 0, 2, 16),
        ],
        true,
        false,
    )];
    let chosen = select_default_interface(&interfaces).expect("IPv4 is present");
    assert_eq!(chosen.name, "mix0");
}

#[test]
fn network_size_sums_two_slash_thirty() {
    let networks = vec![v4net(10, 0, 0, 0, 30), v4net(10, 0, 0, 4, 30)];
    assert_eq!(compute_network_size(&networks), Ok(8u128));
}

#[test]
fn network_size_sums_mixed_prefixes() {
    let networks = vec![
        v4net(10, 0, 0, 1, 32),
        v4net(192, 168, 1, 0, 24),
        v4net(172, 16, 0, 0, 16),
        v4net(0, 0, 0, 0, 0),
    ];
    assert_eq!(
        compute_network_size(&networks),
        Ok(1u128 + 256 + 65536 + 4294967296)
    );
}

#[test]
fn network_size_rejects_ipv6_anywhere() {
    let head = vec![
        IpNet::V6 { text: String::from("2001:db8::/32") },
        v4net(10, 0, 0, 0, 24),
    ];
    let middle = vec![
        v4net(10, 0, 0, 0, 24),
        IpNet::V6 { text: String::from("2001:db8::/32") },
        v4net(10, 0, 1, 0, 24),
    ];
    assert_eq!(compute_network_size(&head), Err(ScanError::UnsupportedIpv6));
    assert_eq!(compute_network_size(&middle), Err(ScanError::UnsupportedIpv6));
    assert_eq!(
        ScanError::UnsupportedIpv6.message(),
        "IPv6 networks are not supported by the ARP protocol"
    );
}

#[test]
fn network_text_and_size_match_ipnetwork_crate() {
    let outside: ipnetwork::Ipv4Network = "10.32.0.0/11".parse().expect("valid network");
    let ours = v4net(10, 32, 0, 0, 11);
    assert_eq!(network_string(&ours), outside.to_string());
    let total = compute_network_size(&vec![ours]).expect("IPv4 only");
    assert_eq!(total, u128::from(outside.size()));
}

#[test]
fn address_text_matches_outside_crates() {
    assert_eq!(ipv4_string(&ip(0, 0, 0, 0)), "0.0.0.0");
    assert_eq!(ipv4_string(&ip(255, 255, 255, 255)), "255.255.255.255");
    let m = mac(0x00, 0x09, 0x0a, 0xff, 0x01, 0xb2);
    assert_eq!(mac_string(&m), "00:09:0a:ff:01:b2");
    let outside = pnet_datalink::MacAddr::new(0x00, 0x09, 0x0a, 0xff, 0x01, 0xb2);
    assert_eq!(mac_string(&m), format!("{}", outside));
}

#[test]
fn interface_listing_matches_reference_format() {
    let interfaces = vec![
        iface("eth0", true, vec![v4net(192, 168, 1, 2, 24)], true, false),
        iface("dock0", false, vec![], false, false),
    ];
    let up_text = format!("{} UP", ansi_term::Color::Green.paint("\u{2714}"));
    let down_text = format!("{} DOWN", ansi_term::Color::Red.paint("\u{2716}"));
    let mut expected = String::from("\n");
    expected.push_str(&format!(
        "{: <20} {: <18} {: <20} {}\n",
        "eth0", up_text, "aa:bb:cc:00:00:01", "192.168.1.2/24"
    ));
    expected.push_str(&format!(
        "{: <20} {: <18} {: <20} {}\n",
        "dock0", down_text, "No MAC address", ""
    ));
    expected.push_str("\nFound 2 network interfaces, 1 seems ready for ARP scans\n");
    expected.push_str("Default network interface will be eth0\n\n");
    assert_eq!(show_interfaces(&interfaces), expected);
}

#[test]
fn listing_counts_ready_without_default() {
    // ready needs only: up, not loopback, one address; no hardware address
    // is fine for the count, though it disqualifies the default choice
    let interfaces = vec![iface("nomac0", false, vec![v4net(10, 0, 0, 1, 24)], true, false)];
    let report = show_interfaces(&interfaces);
    assert!(report.contains("Found 1 network interfaces, 1 seems ready for ARP scans"));
    assert!(!report.contains("Default network interface"));
}

#[test]
fn prescan_shows_first_five_and_more_count() {
    let networks: Vec<IpNet> = (0u8..7u8).map(|i| v4net(10, 0, i, 0, 24)).collect();
    let selected = iface("eth0", true, vec![v4net(10, 0, 0, 2, 24)], true, false);
    let report = display_prescan_details(&networks, &selected, &options(true));
    let expected = "\nSelected interface eth0 with IP 10.0.0.0/24, 10.0.1.0/24, \
                    10.0.2.0/24, 10.0.3.0/24, 10.0.4.0/24 (2 more)\n";
    assert_eq!(report, expected);
}

#[test]
fn prescan_short_list_and_overrides() {
    let networks = vec![v4net(10, 0, 0, 0, 24), v4net(10, 0, 1, 0, 24)];
    let selected = iface("eth2", true, vec![v4net(10, 0, 0, 2, 24)], true, false);
    let opts = ScanOptions {
        resolve_hostname: true,
        source_ipv4: Some(ip(10, 0, 0, 9)),
        destination_mac: Some(mac(0xde, 0xad, 0xbe, 0xef, 0, 1)),
    };
    let report = display_prescan_details(&networks, &selected, &opts);
    let expected = "\nSelected interface eth2 with IP 10.0.0.0/24, 10.0.1.0/24\n\
                    The ARP source IPv4 will be forced to 10.0.0.9\n\
                    The ARP destination MAC will be forced to de:ad:be:ef:00:01\n";
    assert_eq!(report, expected);
}

#[test]
fn pluralization_boundaries() {
    let red_none = format!("{}", ansi_term::Color::Red.paint("no hosts found"));
    assert_eq!(hosts_phrase_string(0), red_none);
    assert_eq!(hosts_phrase_string(1), "1 host found");
    assert_eq!(hosts_phrase_string(5), "5 hosts found");
    assert_eq!(packets_phrase_string(0), "No packets received");
    assert_eq!(packets_phrase_string(1), "1 packet received");
    assert_eq!(packets_phrase_string(7), "7 packets received");
    assert_eq!(arp_phrase_string(0), "no ARP packets filtered");
    assert_eq!(arp_phrase_string(1), "1 ARP packet filtered");
    assert_eq!(arp_phrase_string(3), "3 ARP packets filtered");
}

#[test]
fn duration_three_decimal_places() {
    assert_eq!(duration_string(0), "0.000");
    assert_eq!(duration_string(5), "0.005");
    assert_eq!(duration_string(50), "0.050");
    assert_eq!(duration_string(1000), "1.000");
    assert_eq!(duration_string(1234), "1.234");
    assert_eq!(duration_string(999999), "999.999");
}

#[test]
fn table_widens_to_twenty_char_hostname() {
    let targets = vec![TargetDetails {
        ipv4: ip(192, 168, 1, 1),
        mac: mac(0xaa, 0xbb, 0xcc, 0xdd, 0xee, 0xff),
        hostname: Some(String::from("server-with-20-chars")),
        vendor: None,
    }];
    let summary = ResponseSummary { packet_count: 2, arp_count: 1, duration_ms: 1234 };
    let report = display_scan_results(summary, targets, &options(true));

    let mut expected = String::from("\n");
    expected.push_str(&format!(
        "| IPv4            | MAC               | {: <h$} | {: <v$} |\n",
        "Hostname",
        "Vendor",
        h = 20,
        v = 15
    ));
    expected.push_str(&format!(
        "|-----------------|-------------------|-{:-<h$}-|-{:-<v$}-|\n",
        "",
        "",
        h = 20,
        v = 15
    ));
    expected.push_str(&format!(
        "| {: <15} | {: <18} | {: <h$} | {: <v$} |\n",
        "192.168.1.1",
        "aa:bb:cc:dd:ee:ff",
        "server-with-20-chars",
        "",
        h = 20,
        v = 15
    ));
    expected.push_str("\nARP scan finished, 1 host found in 1.234 seconds\n");
    expected.push_str("2 packets received, 1 ARP packet filtered\n\n");
    assert_eq!(report, expected);
}

#[test]
fn hostname_cell_disabled_versus_empty() {
    let make = || {
        vec![TargetDetails {
            ipv4: ip(10, 0, 0, 1),
            mac: mac(1, 2, 3, 4, 5, 6),
            hostname: None,
            vendor: Some(String::from("Acme")),
        }]
    };
    let summary = ResponseSummary { packet_count: 0, arp_count: 0, duration_ms: 10 };
    let disabled = display_scan_results(summary, make(), &options(false));
    assert!(disabled.contains("(disabled)"));
    let enabled = display_scan_results(summary, make(), &options(true));
    assert!(!enabled.contains("(disabled)"));
    let expected_row = format!(
        "| {: <15} | {: <18} | {: <15} | {: <15} |\n",
        "10.0.0.1", "01:02:03:04:05:06", "", "Acme"
    );
    assert!(enabled.contains(&expected_row));
}

#[test]
fn empty_scan_has_no_table_and_red_phrase() {
    let summary = ResponseSummary { packet_count: 0, arp_count: 0, duration_ms: 500 };
    let report = display_scan_results(summary, Vec::new(), &options(true));
    let red_none = format!("{}", ansi_term::Color::Red.paint("no hosts found"));
    let expected = format!(
        "\nARP scan finished, {} in 0.500 seconds\nNo packets received, no ARP packets filtered\n\n",
        red_none
    );
    assert_eq!(report, expected);
}

#[test]
fn listing_shows_ipv6_first_address_as_given() {
    let outside: ipnetwork::IpNetwork = "fe80::1/64".parse().expect("valid network");
    let interfaces = vec![NetworkInterface {
        name: String::from("six0"),
        mac: Some(mac(0xaa, 0xbb, 0xcc, 0, 0, 2)),
        ips: vec![IpNet::V6 { text: outside.to_string() }],
        up: true,
        loopback: false,
    }];
    let report = show_interfaces(&interfaces);
    assert!(report.contains("fe80::1/64"));
    assert!(!report.contains("Default network interface"));
}

#[test]
fn prescan_single_network_has_no_separator() {
    let networks = vec![v4net(192, 168, 0, 0, 16)];
    let selected = iface("wlan0", true, vec![v4net(192, 168, 0, 3, 16)], true, false);
    let report = display_prescan_details(&networks, &selected, &options(true));
    assert_eq!(report, "\nSelected interface wlan0 with IP 192.168.0.0/16\n");
}

#[test]
fn sort_is_stable_and_ascending() {
    let t = |o4: u8, tag: &str| TargetDetails {
        ipv4: ip(10, 0, 0, o4),
        mac: mac(0, 0, 0, 0, 0, o4),
        hostname: None,
        vendor: Some(String::from(tag)),
    };
    let unsorted = vec![t(5, "a"), t(1, "b"), t(5, "c"), t(1, "d"), t(3, "e")];
    let sorted = sort_by_ipv4(unsorted);
    let order: Vec<(u8, String)> = sorted
        .iter()
        .map(|x| (x.ipv4.o4, x.vendor.clone().unwrap()))
        .collect();
    assert_eq!(
        order,
        vec![
            (1u8, String::from("b")),
            (1u8, String::from("d")),
            (3u8, String::from("e")),
            (5u8, String::from("a")),
            (5u8, String::from("c")),
        ]
    );
}
