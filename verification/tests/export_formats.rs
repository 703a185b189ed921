use arp_scan::export::{
    export_to_csv, export_to_json, export_to_yaml, get_serializable_result,
};
use arp_scan::net::{Ipv4Address, MacAddress};
use arp_scan::results::{ResponseSummary, TargetDetails};

fn ip(o1: u8, o2: u8, o3: u8, o4: u8) -> Ipv4Address {
    Ipv4Address { o1, o2, o3, o4 }
}

fn mac(b0: u8, b1: u8, b2: u8, b3: u8, b4: u8, b5: u8) -> MacAddress {
    MacAddress { b0, b1, b2, b3, b4, b5 }
}

fn target(o4: u8, hostname: Option<&str>, vendor: Option<&str>) -> TargetDetails {
    TargetDetails {
        ipv4: ip(192, 168, 1, o4),
        mac: mac(0xaa, 0xbb, 0xcc, 0xdd, 0xee, o4),
        hostname: hostname.map(String::from),
        vendor: vendor.map(String::from),
    }
}

fn summary() -> ResponseSummary {
    ResponseSummary { packet_count: 12, arp_count: 7, duration_ms: 1523 }
}

fn sample_targets() -> Vec<TargetDetails> {
    vec![
        target(30, Some("gateway"), Some("Acme Networks")),
        target(2, None, Some("Example, \"Quoted\" & Co")),
        target(17, Some("host\nwith\tspice\\\"x\u{e9}"), None),
    ]
}

#[test]
fn serializable_result_flattens_in_input_order() {
    let result = get_serializable_result(summary(), sample_targets());
    assert_eq!(result.packet_count, 12);
    assert_eq!(result.arp_count, 7);
    assert_eq!(result.duration_ms, 1523);
    assert_eq!(result.results.len(), 3);
    assert_eq!(result.results[0].ipv4, "192.168.1.30");
    assert_eq!(result.results[0].mac, "aa:bb:cc:dd:ee:1e");
    assert_eq!(result.results[0].hostname, "gateway");
    assert_eq!(result.results[1].hostname, "");
    assert_eq!(result.results[2].vendor, "");
}

#[test]
fn json_parses_and_reserializes_identically() {
    let text = export_to_json(summary(), sample_targets());
    let value: serde_json::Value = serde_json::from_str(&text).expect("valid JSON");
    let again = serde_json::to_string(&value).expect("serializable");
    assert_eq!(text, again);
}

#[test]
fn json_round_trip_reproduces_records() {
    let text = export_to_json(summary(), sample_targets());
    let value: serde_json::Value = serde_json::from_str(&text).expect("valid JSON");
    assert_eq!(value["packet_count"].as_u64(), Some(12));
    assert_eq!(value["arp_count"].as_u64(), Some(7));
    assert_eq!(value["duration_ms"].as_u64(), Some(1523));
    let results = value["results"].as_array().expect("record list");
    assert_eq!(results.len(), 3);
    assert_eq!(results[0]["ipv4"].as_str(), Some("192.168.1.2"));
    assert_eq!(results[0]["hostname"].as_str(), Some(""));
    assert_eq!(results[0]["vendor"].as_str(), Some("Example, \"Quoted\" & Co"));
    assert_eq!(results[1]["ipv4"].as_str(), Some("192.168.1.17"));
    assert_eq!(
        results[1]["hostname"].as_str(),
        Some("host\nwith\tspice\\\"x\u{e9}")
    );
    assert_eq!(results[1]["vendor"].as_str(), Some(""));
    assert_eq!(results[2]["ipv4"].as_str(), Some("192.168.1.30"));
    assert_eq!(results[2]["mac"].as_str(), Some("aa:bb:cc:dd:ee:1e"));
    assert_eq!(results[2]["hostname"].as_str(), Some("gateway"));
}

#[test]
fn json_escapes_control_characters() {
    let targets = vec![target(1, Some("a\u{1}b\u{1f}c"), None)];
    let text = export_to_json(summary(), targets);
    assert!(text.contains("a\\u0001b\\u001fc"));
    let value: serde_json::Value = serde_json::from_str(&text).expect("valid JSON");
    assert_eq!(
        value["results"][0]["hostname"].as_str(),
        Some("a\u{1}b\u{1f}c")
    );
}

#[test]
fn yaml_round_trip_reproduces_records() {
    let text = export_to_yaml(summary(), sample_targets());
    let value: serde_yaml::Value = serde_yaml::from_str(&text).expect("valid YAML");
    assert_eq!(value["packet_count"].as_u64(), Some(12));
    assert_eq!(value["arp_count"].as_u64(), Some(7));
    assert_eq!(value["duration_ms"].as_u64(), Some(1523));
    let results = value["results"].as_sequence().expect("record list");
    assert_eq!(results.len(), 3);
    assert_eq!(results[0]["ipv4"].as_str(), Some("192.168.1.2"));
    assert_eq!(results[0]["vendor"].as_str(), Some("Example, \"Quoted\" & Co"));
    assert_eq!(
        results[1]["hostname"].as_str(),
        Some("host\nwith\tspice\\\"x\u{e9}")
    );
    assert_eq!(results[2]["hostname"].as_str(), Some("gateway"));
    assert_eq!(results[2]["vendor"].as_str(), Some("Acme Networks"));
}

#[test]
fn yaml_empty_targets_is_empty_flow_list() {
    let text = export_to_yaml(summary(), Vec::new());
    assert_eq!(
        text,
        "packet_count: 12\narp_count: 7\nduration_ms: 1523\nresults: []\n"
    );
    let value: serde_yaml::Value = serde_yaml::from_str(&text).expect("valid YAML");
    assert_eq!(value["results"].as_sequence().map(|s| s.len()), Some(0));
}

#[test]
fn csv_matches_csv_crate_output() {
    let text = export_to_csv(summary(), sample_targets());
    let mut wtr = csv::Writer::from_writer(vec![]);
    wtr.write_record(["ipv4", "mac", "hostname", "vendor"]).expect("header");
    wtr.write_record(["192.168.1.2", "aa:bb:cc:dd:ee:02", "", "Example, \"Quoted\" & Co"])
        .expect("row");
    wtr.write_record([
        "192.168.1.17",
        "aa:bb:cc:dd:ee:11",
        "host\nwith\tspice\\\"x\u{e9}",
        "",
    ])
    .expect("row");
    wtr.write_record(["192.168.1.30", "aa:bb:cc:dd:ee:1e", "gateway", "Acme Networks"])
        .expect("row");
    let bytes = wtr.into_inner().expect("in-memory buffer");
    let expected = String::from_utf8(bytes).expect("UTF-8");
    assert_eq!(text, expected);
}

#[test]
fn csv_round_trip_reproduces_records() {
    let text = export_to_csv(summary(), sample_targets());
    let mut rdr = csv::Reader::from_reader(text.as_bytes());
    let headers = rdr.headers().expect("header row").clone();
    let fields: Vec<&str> = headers.iter().collect();
    assert_eq!(fields, vec!["ipv4", "mac", "hostname", "vendor"]);
    let rows: Vec<Vec<String>> = rdr
        .records()
        .map(|r| r.expect("row").iter().map(String::from).collect())
        .collect();
    assert_eq!(rows.len(), 3);
    assert_eq!(rows[0][0], "192.168.1.2");
    assert_eq!(rows[0][3], "Example, \"Quoted\" & Co");
    assert_eq!(rows[1][2], "host\nwith\tspice\\\"x\u{e9}");
    assert_eq!(rows[2][2], "gateway");
}

#[test]
fn csv_excludes_summary_and_json_yaml_include_it() {
    let csv_text = export_to_csv(summary(), sample_targets());
    assert!(!csv_text.contains("packet_count"));
    assert!(!csv_text.contains("duration_ms"));
    assert!(!csv_text.contains("1523"));
    let json_text = export_to_json(summary(), sample_targets());
    assert!(json_text.starts_with(
        "{\"packet_count\":12,\"arp_count\":7,\"duration_ms\":1523,\"results\":["
    ));
    let yaml_text = export_to_yaml(summary(), sample_targets());
    assert!(yaml_text.starts_with("packet_count: 12\narp_count: 7\nduration_ms: 1523\n"));
}

#[test]
fn csv_of_no_targets_is_empty() {
    assert_eq!(export_to_csv(summary(), Vec::new()), "");
}

#[test]
fn json_of_no_targets_keeps_summary() {
    let text = export_to_json(summary(), Vec::new());
    assert_eq!(
        text,
        "{\"packet_count\":12,\"arp_count\":7,\"duration_ms\":1523,\"results\":[]}"
    );
}

#[test]
fn exports_share_ascending_ipv4_order() {
    let forward = sample_targets();
    let mut backward = sample_targets();
    backward.reverse();

    let json_a = export_to_json(summary(), forward);
    let json_b = export_to_json(summary(), backward);
    assert_eq!(json_a, json_b);

    let value: serde_json::Value = serde_json::from_str(&json_a).expect("valid JSON");
    let json_order: Vec<String> = value["results"]
        .as_array()
        .expect("record list")
        .iter()
        .map(|r| r["ipv4"].as_str().expect("text").to_string())
        .collect();

    let yaml_a = export_to_yaml(summary(), sample_targets());
    let yaml_value: serde_yaml::Value = serde_yaml::from_str(&yaml_a).expect("valid YAML");
    let yaml_order: Vec<String> = yaml_value["results"]
        .as_sequence()
        .expect("record list")
        .iter()
        .map(|r| r["ipv4"].as_str().expect("text").to_string())
        .collect();

    let csv_a = export_to_csv(summary(), sample_targets());
    let mut rdr = csv::Reader::from_reader(csv_a.as_bytes());
    let csv_order: Vec<String> = rdr
        .records()
        .map(|r| r.expect("row")[0].to_string())
        .collect();

    let ascending = vec![
        String::from("192.168.1.2"),
        String::from("192.168.1.17"),
        String::from("192.168.1.30"),
    ];
    assert_eq!(json_order, ascending);
    assert_eq!(yaml_order, ascending);
    assert_eq!(csv_order, ascending);
}
