//! Canonical export records and the three interchange encodings.
//!
//! All three formats list the targets sorted ascending by IPv4 address.
//! JSON and YAML wrap the records with the summary counters; CSV carries
//! the per-target records alone, with a header row.

use vstd::prelude::*;
use vstd::string::*;
use crate::net::{byte_hex, hex_digit_str, ipv4_seq, ipv4_string, mac_seq, mac_string};
use crate::results::{sort_by_ipv4, sort_targets, ResponseSummary, TargetDetails};
use crate::text::{dec_seq, dec_string};

verus! {

/// One target as it is exported: addresses as text, absent hostname or
/// vendor flattened to the empty string.
pub struct SerializableResultItem {
    pub ipv4: String,
    pub mac: String,
    pub hostname: String,
    pub vendor: String,
}

/// A whole scan result as it is exported: the summary counters and the
/// target records.
pub struct SerializableGlobalResult {
    pub packet_count: usize,
    pub arp_count: usize,
    pub duration_ms: u128,
    pub results: Vec<SerializableResultItem>,
}

/// An optional text flattened for export: its characters, or empty where
/// absent.
pub open spec fn opt_text(o: Option<String>) -> Seq<char> {
    match o {
        Some(s) => s@,
        None => Seq::empty(),
    }
}

/// Whether an export record is the canonical projection of a target.
pub open spec fn item_matches(it: SerializableResultItem, t: TargetDetails) -> bool {
    &&& it.ipv4@ == ipv4_seq(t.ipv4)
    &&& it.mac@ == mac_seq(t.mac)
    &&& it.hostname@ == opt_text(t.hostname)
    &&& it.vendor@ == opt_text(t.vendor)
}

/// Projects a scan result onto the canonical export shape: summary counters
/// copied verbatim, each target rendered as text in input order.
pub fn get_serializable_result(
    response_summary: ResponseSummary,
    target_details: Vec<TargetDetails>,
) -> (r: SerializableGlobalResult)
    ensures
        r.packet_count == response_summary.packet_count,
        r.arp_count == response_summary.arp_count,
        r.duration_ms == response_summary.duration_ms,
        r.results@.len() == target_details@.len(),
        forall|i: int|
            0 <= i < target_details@.len() ==> item_matches(
                #[trigger] r.results@[i],
                target_details@[i],
            ),
{
    let mut items: Vec<SerializableResultItem> = Vec::new();
    let n: usize = target_details.len();
    let mut i: usize = 0;
    while i < n
        invariant
            i <= n == target_details@.len(),
            items@.len() == i,
            forall|k: int|
                0 <= k < i ==> item_matches(#[trigger] items@[k], target_details@[k]),
        decreases n - i,
    {
        let t = &target_details[i];
        let hostname = match &t.hostname {
            Some(h) => h.clone(),
            None => String::new(),
        };
        let vendor = match &t.vendor {
            Some(v) => v.clone(),
            None => String::new(),
        };
        let item = SerializableResultItem {
            ipv4: ipv4_string(&t.ipv4),
            mac: mac_string(&t.mac),
            hostname,
            vendor,
        };
        items.push(item);
        i = i + 1;
    }
    SerializableGlobalResult {
        packet_count: response_summary.packet_count,
        arp_count: response_summary.arp_count,
        duration_ms: response_summary.duration_ms,
        results: items,
    }
}

/// The escape of one character inside a double-quoted JSON string: quote
/// and backslash escaped, the five short control escapes, other control
/// characters as a four-digit lowercase hexadecimal escape, and every other
/// character as itself.
pub open spec fn json_escape_char(c: char) -> Seq<char> {
    if c == '"' {
        seq!['\\', '"']
    } else if c == '\\' {
        seq!['\\', '\\']
    } else if c == '\u{8}' {
        seq!['\\', 'b']
    } else if c == '\t' {
        seq!['\\', 't']
    } else if c == '\n' {
        seq!['\\', 'n']
    } else if c == '\u{c}' {
        seq!['\\', 'f']
    } else if c == '\r' {
        seq!['\\', 'r']
    } else if (c as u32) < 0x20 {
        seq!['\\', 'u', '0', '0'] + byte_hex((c as u32) as nat)
    } else {
        seq![c]
    }
}

/// A text with every character escaped for a double-quoted JSON string.
pub open spec fn json_escaped(s: Seq<char>) -> Seq<char>
    decreases s.len(),
{
    if s.len() == 0 {
        Seq::empty()
    } else {
        json_escaped(s.drop_last()) + json_escape_char(s.last())
    }
}

/// A double-quoted JSON string.
pub open spec fn json_quote(s: Seq<char>) -> Seq<char> {
    seq!['"'] + json_escaped(s) + seq!['"']
}

/// Relies on std's String::push: appends exactly the one character.
#[verifier::external_body]
fn push_char(s: &mut String, c: char)
    ensures
        final(s)@ == old(s)@.push(c),
{
    s.push(c);
}

fn append_json_escaped_char(out: &mut String, c: char)
    ensures
        final(out)@ == old(out)@ + json_escape_char(c),
{
    if c == '"' {
        out.append("\\\"");
        proof {
            assert("\\\""@ =~= seq!['\\', '"']) by {
                reveal_strlit("\\\"");
            }
        }
    } else if c == '\\' {
        out.append("\\\\");
        proof {
            assert("\\\\"@ =~= seq!['\\', '\\']) by {
                reveal_strlit("\\\\");
            }
        }
    } else if c == '\u{8}' {
        out.append("\\b");
        proof {
            assert("\\b"@ =~= seq!['\\', 'b']) by {
                reveal_strlit("\\b");
            }
        }
    } else if c == '\t' {
        out.append("\\t");
        proof {
            assert("\\t"@ =~= seq!['\\', 't']) by {
                reveal_strlit("\\t");
            }
        }
    } else if c == '\n' {
        out.append("\\n");
        proof {
            assert("\\n"@ =~= seq!['\\', 'n']) by {
                reveal_strlit("\\n");
            }
        }
    } else if c == '\u{c}' {
        out.append("\\f");
        proof {
            assert("\\f"@ =~= seq!['\\', 'f']) by {
                reveal_strlit("\\f");
            }
        }
    } else if c == '\r' {
        out.append("\\r");
        proof {
            assert("\\r"@ =~= seq!['\\', 'r']) by {
                reveal_strlit("\\r");
            }
        }
    } else if (c as u32) < 0x20 {
        let b: u8 = (c as u32) as u8;
        out.append("\\u00");
        out.append(hex_digit_str(b / 16));
        out.append(hex_digit_str(b % 16));
        proof {
            assert("\\u00"@ =~= seq!['\\', 'u', '0', '0']) by {
                reveal_strlit("\\u00");
            }
            assert(out@ =~= old(out)@ + json_escape_char(c));
        }
    } else {
        push_char(out, c);
        proof {
            assert(out@ =~= old(out)@ + seq![c]);
        }
    }
}

/// Appends a double-quoted JSON string for the given text.
fn append_json_quoted(out: &mut String, s: &str)
    ensures
        final(out)@ == old(out)@ + json_quote(s@),
{
    out.append("\"");
    proof {
        assert("\""@ =~= seq!['"']) by {
            reveal_strlit("\"");
        }
    }
    let n: usize = s.unicode_len();
    let mut i: usize = 0;
    proof {
        assert(json_escaped(s@.take(0)) =~= Seq::<char>::empty());
        assert(out@ =~= old(out)@ + seq!['"'] + json_escaped(s@.take(0)));
    }
    while i < n
        invariant
            i <= n == s@.len(),
            out@ == old(out)@ + seq!['"'] + json_escaped(s@.take(i as int)),
        decreases n - i,
    {
        let c = s.get_char(i);
        append_json_escaped_char(out, c);
        proof {
            assert(s@.take(i + 1).drop_last() =~= s@.take(i as int));
            assert(s@.take(i + 1).last() == s@[i as int]);
            assert(out@ =~= old(out)@ + seq!['"'] + json_escaped(s@.take(i + 1)));
        }
        i = i + 1;
    }
    out.append("\"");
    proof {
        assert("\""@ =~= seq!['"']) by {
            reveal_strlit("\"");
        }
        assert(s@.take(n as int) =~= s@);
        assert(out@ =~= old(out)@ + json_quote(s@));
    }
}

/// One target as a JSON object.
pub open spec fn json_item_seq(t: TargetDetails) -> Seq<char> {
    "{\"ipv4\":"@ + json_quote(ipv4_seq(t.ipv4)) + ",\"mac\":"@ + json_quote(mac_seq(t.mac))
        + ",\"hostname\":"@ + json_quote(opt_text(t.hostname)) + ",\"vendor\":"@ + json_quote(
        opt_text(t.vendor),
    ) + "}"@
}

/// The comma-separated JSON objects of a target list.
pub open spec fn json_items(s: Seq<TargetDetails>) -> Seq<char>
    decreases s.len(),
{
    if s.len() == 0 {
        Seq::empty()
    } else if s.len() == 1 {
        json_item_seq(s[0])
    } else {
        json_items(s.drop_last()) + seq![','] + json_item_seq(s.last())
    }
}

/// The whole JSON export: summary counters, then the records in order.
pub open spec fn json_export_seq(summary: ResponseSummary, s: Seq<TargetDetails>) -> Seq<char> {
    "{\"packet_count\":"@ + dec_seq(summary.packet_count as nat) + ",\"arp_count\":"@ + dec_seq(
        summary.arp_count as nat,
    ) + ",\"duration_ms\":"@ + dec_seq(summary.duration_ms as nat) + ",\"results\":["@
        + json_items(s) + "]}"@
}

fn append_json_item(out: &mut String, t: &TargetDetails)
    ensures
        final(out)@ == old(out)@ + json_item_seq(*t),
{
    out.append("{\"ipv4\":");
    let f = ipv4_string(&t.ipv4);
    append_json_quoted(out, f.as_str());
    out.append(",\"mac\":");
    let f = mac_string(&t.mac);
    append_json_quoted(out, f.as_str());
    out.append(",\"hostname\":");
    match &t.hostname {
        Some(h) => append_json_quoted(out, h.as_str()),
        None => append_json_quoted(out, ""),
    }
    out.append(",\"vendor\":");
    match &t.vendor {
        Some(v) => append_json_quoted(out, v.as_str()),
        None => append_json_quoted(out, ""),
    }
    out.append("}");
    proof {
        assert(""@ =~= Seq::<char>::empty()) by {
            reveal_strlit("");
        }
        assert(out@ =~= old(out)@ + json_item_seq(*t));
    }
}

/// Exports a scan result as one JSON document, targets sorted ascending by
/// IPv4 address, summary counters included.
pub fn export_to_json(response_summary: ResponseSummary, target_details: Vec<TargetDetails>) -> (r:
    String)
    ensures
        r@ == json_export_seq(response_summary, sort_targets(target_details@)),
{
    let sorted = sort_by_ipv4(target_details);
    let ghost sseq = sorted@;
    let mut out = String::new();
    out.append("{\"packet_count\":");
    let d = dec_string(response_summary.packet_count as u128);
    out.append(d.as_str());
    out.append(",\"arp_count\":");
    let d = dec_string(response_summary.arp_count as u128);
    out.append(d.as_str());
    out.append(",\"duration_ms\":");
    let d = dec_string(response_summary.duration_ms);
    out.append(d.as_str());
    out.append(",\"results\":[");
    let ghost head = out@;
    let n: usize = sorted.len();
    let mut i: usize = 0;
    proof {
        assert(json_items(sseq.take(0)) =~= Seq::<char>::empty());
        assert(out@ =~= head + json_items(sseq.take(0)));
    }
    while i < n
        invariant
            i <= n == sseq.len(),
            sorted@ == sseq,
            out@ == head + json_items(sseq.take(i as int)),
        decreases n - i,
    {
        if i > 0 {
            out.append(",");
        }
        append_json_item(&mut out, &sorted[i]);
        proof {
            assert(","@ =~= seq![',']) by {
                reveal_strlit(",");
            }
            assert(sseq.take(i + 1).drop_last() =~= sseq.take(i as int));
            assert(sseq.take(i + 1).last() == sseq[i as int]);
            if i == 0 {
                assert(sseq.take(1).len() == 1);
                assert(sseq.take(1)[0] == sseq[0]);
                assert(out@ =~= head + json_items(sseq.take(1)));
            } else {
                assert(out@ =~= head + json_items(sseq.take(i as int)) + seq![','] + json_item_seq(
                    sseq[i as int],
                ));
                assert(out@ =~= head + json_items(sseq.take(i + 1)));
            }
        }
        i = i + 1;
    }
    out.append("]}");
    proof {
        assert(sseq.take(n as int) =~= sseq);
        assert(out@ =~= json_export_seq(response_summary, sseq));
    }
    out
}

/// One target as a YAML list entry of double-quoted scalars.
pub open spec fn yaml_item_seq(t: TargetDetails) -> Seq<char> {
    "- ipv4: "@ + json_quote(ipv4_seq(t.ipv4)) + "\n  mac: "@ + json_quote(mac_seq(t.mac))
        + "\n  hostname: "@ + json_quote(opt_text(t.hostname)) + "\n  vendor: "@ + json_quote(
        opt_text(t.vendor),
    ) + "\n"@
}

/// The YAML list entries of a target list.
pub open spec fn yaml_items(s: Seq<TargetDetails>) -> Seq<char>
    decreases s.len(),
{
    if s.len() == 0 {
        Seq::empty()
    } else {
        yaml_items(s.drop_last()) + yaml_item_seq(s.last())
    }
}

/// The whole YAML export: summary counters, then the records in order; an
/// empty target list shows as an empty flow list.
pub open spec fn yaml_export_seq(summary: ResponseSummary, s: Seq<TargetDetails>) -> Seq<char> {
    "packet_count: "@ + dec_seq(summary.packet_count as nat) + "\narp_count: "@ + dec_seq(
        summary.arp_count as nat,
    ) + "\nduration_ms: "@ + dec_seq(summary.duration_ms as nat) + "\nresults:"@ + (if s.len()
        == 0 {
        " []\n"@
    } else {
        "\n"@ + yaml_items(s)
    })
}

fn append_yaml_item(out: &mut String, t: &TargetDetails)
    ensures
        final(out)@ == old(out)@ + yaml_item_seq(*t),
{
    out.append("- ipv4: ");
    let f = ipv4_string(&t.ipv4);
    append_json_quoted(out, f.as_str());
    out.append("\n  mac: ");
    let f = mac_string(&t.mac);
    append_json_quoted(out, f.as_str());
    out.append("\n  hostname: ");
    match &t.hostname {
        Some(h) => append_json_quoted(out, h.as_str()),
        None => append_json_quoted(out, ""),
    }
    out.append("\n  vendor: ");
    match &t.vendor {
        Some(v) => append_json_quoted(out, v.as_str()),
        None => append_json_quoted(out, ""),
    }
    out.append("\n");
    proof {
        assert(""@ =~= Seq::<char>::empty()) by {
            reveal_strlit("");
        }
        assert(out@ =~= old(out)@ + yaml_item_seq(*t));
    }
}

/// Exports a scan result as one YAML document, targets sorted ascending by
/// IPv4 address, summary counters included.
pub fn export_to_yaml(response_summary: ResponseSummary, target_details: Vec<TargetDetails>) -> (r:
    String)
    ensures
        r@ == yaml_export_seq(response_summary, sort_targets(target_details@)),
{
    let sorted = sort_by_ipv4(target_details);
    let ghost sseq = sorted@;
    let mut out = String::new();
    out.append("packet_count: ");
    let d = dec_string(response_summary.packet_count as u128);
    out.append(d.as_str());
    out.append("\narp_count: ");
    let d = dec_string(response_summary.arp_count as u128);
    out.append(d.as_str());
    out.append("\nduration_ms: ");
    let d = dec_string(response_summary.duration_ms);
    out.append(d.as_str());
    out.append("\nresults:");
    if sorted.len() == 0 {
        out.append(" []\n");
        proof {
            assert(out@ =~= yaml_export_seq(response_summary, sseq));
        }
        return out;
    }
    out.append("\n");
    let ghost head = out@;
    let n: usize = sorted.len();
    let mut i: usize = 0;
    proof {
        assert(yaml_items(sseq.take(0)) =~= Seq::<char>::empty());
        assert(out@ =~= head + yaml_items(sseq.take(0)));
    }
    while i < n
        invariant
            i <= n == sseq.len(),
            sorted@ == sseq,
            out@ == head + yaml_items(sseq.take(i as int)),
        decreases n - i,
    {
        append_yaml_item(&mut out, &sorted[i]);
        proof {
            assert(sseq.take(i + 1).drop_last() =~= sseq.take(i as int));
            assert(sseq.take(i + 1).last() == sseq[i as int]);
            assert(out@ =~= head + yaml_items(sseq.take(i + 1)));
        }
        i = i + 1;
    }
    proof {
        assert(sseq.take(n as int) =~= sseq);
        assert(out@ =~= yaml_export_seq(response_summary, sseq));
    }
    out
}

/// Whether a CSV field must be quoted: it holds a delimiter, a quote, or a
/// line break.
pub open spec fn csv_needs_quote(s: Seq<char>) -> bool {
    exists|i: int|
        0 <= i < s.len() && (s[i] == ',' || s[i] == '"' || s[i] == '\n' || s[i] == '\r')
}

/// A text with every quote doubled, as inside a quoted CSV field.
pub open spec fn csv_doubled(s: Seq<char>) -> Seq<char>
    decreases s.len(),
{
    if s.len() == 0 {
        Seq::empty()
    } else {
        csv_doubled(s.drop_last()) + (if s.last() == '"' {
            seq!['"', '"']
        } else {
            seq![s.last()]
        })
    }
}

/// One CSV field: quoted with doubled quotes exactly where needed.
pub open spec fn csv_field(s: Seq<char>) -> Seq<char> {
    if csv_needs_quote(s) {
        seq!['"'] + csv_doubled(s) + seq!['"']
    } else {
        s
    }
}

/// One target as a CSV record line.
pub open spec fn csv_row(t: TargetDetails) -> Seq<char> {
    csv_field(ipv4_seq(t.ipv4)) + seq![','] + csv_field(mac_seq(t.mac)) + seq![','] + csv_field(
        opt_text(t.hostname),
    ) + seq![','] + csv_field(opt_text(t.vendor)) + seq!['\n']
}

/// The CSV record lines of a target list.
pub open spec fn csv_rows(s: Seq<TargetDetails>) -> Seq<char>
    decreases s.len(),
{
    if s.len() == 0 {
        Seq::empty()
    } else {
        csv_rows(s.drop_last()) + csv_row(s.last())
    }
}

/// The whole CSV export: a header row and the records in order, and nothing
/// of the summary; an empty target list exports as empty text.
pub open spec fn csv_export_seq(s: Seq<TargetDetails>) -> Seq<char> {
    if s.len() == 0 {
        Seq::empty()
    } else {
        "ipv4,mac,hostname,vendor\n"@ + csv_rows(s)
    }
}

fn append_csv_field(out: &mut String, s: &str)
    ensures
        final(out)@ == old(out)@ + csv_field(s@),
{
    let n: usize = s.unicode_len();
    let mut needs: bool = false;
    let mut i: usize = 0;
    while i < n
        invariant
            i <= n == s@.len(),
            needs == csv_needs_quote(s@.take(i as int)),
        decreases n - i,
    {
        let c = s.get_char(i);
        if c == ',' || c == '"' || c == '\n' || c == '\r' {
            needs = true;
        }
        proof {
            assert(s@.take(i + 1).take(i as int) =~= s@.take(i as int));
            if needs {
                if s@[i as int] == ',' || s@[i as int] == '"' || s@[i as int] == '\n'
                    || s@[i as int] == '\r' {
                    assert(csv_needs_quote(s@.take(i + 1))) by {
                        assert(s@.take(i + 1)[i as int] == s@[i as int]);
                    }
                } else {
                    let w = choose|w: int|
                        0 <= w < i && (s@.take(i as int)[w] == ',' || s@.take(i as int)[w] == '"'
                            || s@.take(i as int)[w] == '\n' || s@.take(i as int)[w] == '\r');
                    assert(s@.take(i + 1)[w] == s@.take(i as int)[w]);
                }
            } else {
                assert(forall|w: int|
                    0 <= w < i + 1 ==> s@.take(i + 1)[w] == #[trigger] s@[w]);
                assert(!csv_needs_quote(s@.take(i + 1))) by {
                    assert(forall|w: int| 0 <= w < i ==> s@.take(i as int)[w] == #[trigger] s@[w]);
                }
            }
        }
        i = i + 1;
    }
    proof {
        assert(s@.take(n as int) =~= s@);
    }
    if !needs {
        out.append(s);
        return ;
    }
    out.append("\"");
    proof {
        assert("\""@ =~= seq!['"']) by {
            reveal_strlit("\"");
        }
        assert(csv_doubled(s@.take(0)) =~= Seq::<char>::empty());
        assert(out@ =~= old(out)@ + seq!['"'] + csv_doubled(s@.take(0)));
    }
    let mut i: usize = 0;
    while i < n
        invariant
            i <= n == s@.len(),
            out@ == old(out)@ + seq!['"'] + csv_doubled(s@.take(i as int)),
        decreases n - i,
    {
        let c = s.get_char(i);
        if c == '"' {
            out.append("\"\"");
            proof {
                assert("\"\""@ =~= seq!['"', '"']) by {
                    reveal_strlit("\"\"");
                }
            }
        } else {
            push_char(out, c);
        }
        proof {
            assert(s@.take(i + 1).drop_last() =~= s@.take(i as int));
            assert(s@.take(i + 1).last() == s@[i as int]);
            assert(out@ =~= old(out)@ + seq!['"'] + csv_doubled(s@.take(i + 1)));
        }
        i = i + 1;
    }
    out.append("\"");
    proof {
        assert("\""@ =~= seq!['"']) by {
            reveal_strlit("\"");
        }
        assert(s@.take(n as int) =~= s@);
        assert(out@ =~= old(out)@ + csv_field(s@));
    }
}

#[verifier::rlimit(50)]
fn append_csv_row(out: &mut String, t: &TargetDetails)
    ensures
        final(out)@ == old(out)@ + csv_row(*t),
{
    let f = ipv4_string(&t.ipv4);
    append_csv_field(out, f.as_str());
    out.append(",");
    let f = mac_string(&t.mac);
    append_csv_field(out, f.as_str());
    out.append(",");
    match &t.hostname {
        Some(h) => append_csv_field(out, h.as_str()),
        None => append_csv_field(out, ""),
    }
    out.append(",");
    match &t.vendor {
        Some(v) => append_csv_field(out, v.as_str()),
        None => append_csv_field(out, ""),
    }
    out.append("\n");
    proof {
        assert(""@ =~= Seq::<char>::empty()) by {
            reveal_strlit("");
        }
        assert(","@ =~= seq![',']) by {
            reveal_strlit(",");
        }
        assert("\n"@ =~= seq!['\n']) by {
            reveal_strlit("\n");
        }
        assert(out@ =~= old(out)@ + csv_row(*t));
    }
}

/// Exports the per-target records as CSV text with a header row, targets
/// sorted ascending by IPv4 address; the summary counters are left out on
/// purpose, and no target at all yields empty text.
pub fn export_to_csv(response_summary: ResponseSummary, target_details: Vec<TargetDetails>) -> (r:
    String)
    ensures
        r@ == csv_export_seq(sort_targets(target_details@)),
{
    let sorted = sort_by_ipv4(target_details);
    let ghost sseq = sorted@;
    let mut out = String::new();
    if sorted.len() == 0 {
        return out;
    }
    out.append("ipv4,mac,hostname,vendor\n");
    let ghost head = out@;
    let n: usize = sorted.len();
    let mut i: usize = 0;
    proof {
        assert(csv_rows(sseq.take(0)) =~= Seq::<char>::empty());
        assert(out@ =~= head + csv_rows(sseq.take(0)));
    }
    while i < n
        invariant
            i <= n == sseq.len(),
            sorted@ == sseq,
            out@ == head + csv_rows(sseq.take(i as int)),
        decreases n - i,
    {
        append_csv_row(&mut out, &sorted[i]);
        proof {
            assert(sseq.take(i + 1).drop_last() =~= sseq.take(i as int));
            assert(sseq.take(i + 1).last() == sseq[i as int]);
            assert(out@ =~= head + csv_rows(sseq.take(i + 1)));
        }
        i = i + 1;
    }
    proof {
        assert(sseq.take(n as int) =~= sseq);
        assert(out@ =~= csv_export_seq(sseq));
    }
    out
}

} // verus!
