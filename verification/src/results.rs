//! Scan results and their table rendering: targets sorted ascending by IPv4
//! address, dynamically sized hostname and vendor columns, and pluralized
//! summary lines.

use vstd::prelude::*;
use vstd::string::*;
use vstd::seq_lib::group_to_multiset_ensures;
use vstd::multiset::Multiset;
use crate::net::{ipv4_seq, ipv4_string, mac_seq, mac_string, Ipv4Address, MacAddress};
use crate::text::{append_padded, dec_seq, dec_string, fill, pad_right};
use crate::ScanOptions;

verus! {

/// What the scan engine reports once a scan has completed.
#[derive(Clone, Copy, PartialEq, Eq, Structural, Debug)]
pub struct ResponseSummary {
    pub packet_count: usize,
    pub arp_count: usize,
    pub duration_ms: u128,
}

/// One discovered host: address and hardware address always present,
/// hostname and vendor only where the respective lookup succeeded.
pub struct TargetDetails {
    pub ipv4: Ipv4Address,
    pub mac: MacAddress,
    pub hostname: Option<String>,
    pub vendor: Option<String>,
}

/// Stable insertion of one target into a list already sorted ascending by
/// IPv4 value: the new element goes after every element it does not strictly
/// precede.
pub open spec fn insert_sorted(x: TargetDetails, s: Seq<TargetDetails>) -> Seq<TargetDetails>
    decreases s.len(),
{
    if s.len() == 0 {
        seq![x]
    } else if s[0].ipv4.value() <= x.ipv4.value() {
        seq![s[0]] + insert_sorted(x, s.drop_first())
    } else {
        seq![x] + s
    }
}

/// The stable ascending-by-IPv4 ordering of a target list: the one
/// user-visible and exported ordering.
pub open spec fn sort_targets(s: Seq<TargetDetails>) -> Seq<TargetDetails>
    decreases s.len(),
{
    if s.len() == 0 {
        Seq::empty()
    } else {
        insert_sorted(s.last(), sort_targets(s.drop_last()))
    }
}

/// Whether a target list is sorted ascending by IPv4 value.
pub open spec fn sorted_by_ipv4(s: Seq<TargetDetails>) -> bool {
    forall|i: int, j: int|
        0 <= i < j < s.len() ==> s[i].ipv4.value() <= s[j].ipv4.value()
}

proof fn lemma_insert_sorted(x: TargetDetails, s: Seq<TargetDetails>)
    requires
        sorted_by_ipv4(s),
    ensures
        sorted_by_ipv4(insert_sorted(x, s)),
        insert_sorted(x, s).to_multiset() == s.to_multiset().insert(x),
        insert_sorted(x, s).len() == s.len() + 1,
        forall|j: int|
            0 <= j < insert_sorted(x, s).len() ==> insert_sorted(x, s)[j] == x || s.contains(
                #[trigger] insert_sorted(x, s)[j],
            ),
    decreases s.len(),
{
    broadcast use group_to_multiset_ensures;
    broadcast use vstd::seq_lib::lemma_multiset_commutative;

    let r = insert_sorted(x, s);
    if s.len() == 0 {
        assert(seq![x] =~= Seq::<TargetDetails>::empty().push(x));
        assert(r.to_multiset() =~= s.to_multiset().insert(x));
    } else if s[0].ipv4.value() <= x.ipv4.value() {
        let tail = s.drop_first();
        assert(sorted_by_ipv4(tail)) by {
            assert(forall|i: int, j: int|
                0 <= i < j < tail.len() ==> tail[i].ipv4.value() <= tail[j].ipv4.value()) by {
                assert(forall|i: int| 0 <= i < tail.len() ==> tail[i] == s[i + 1]);
            }
        }
        lemma_insert_sorted(x, tail);
        let rt = insert_sorted(x, tail);
        assert(r =~= seq![s[0]] + rt);
        // order: the head precedes everything that follows it
        assert forall|j: int| 1 <= j < r.len() implies s[0].ipv4.value()
            <= r[j].ipv4.value() by {
            assert(r[j] == rt[j - 1]);
            if rt[j - 1] == x {
            } else {
                assert(tail.contains(rt[j - 1]));
                let w = choose|w: int| 0 <= w < tail.len() && tail[w] == rt[j - 1];
                assert(s[w + 1] == tail[w]);
            }
        }
        assert(sorted_by_ipv4(r)) by {
            assert(forall|i: int, j: int|
                1 <= i < j < r.len() ==> r[i].ipv4.value() <= r[j].ipv4.value()) by {
                assert(forall|i: int| 1 <= i < r.len() ==> r[i] == rt[i - 1]);
            }
        }
        // multiset
        assert(seq![s[0]].to_multiset() =~= Multiset::<TargetDetails>::empty().insert(s[0])) by {
            assert(seq![s[0]] =~= Seq::<TargetDetails>::empty().push(s[0]));
        }
        assert(r.to_multiset() =~= s.to_multiset().insert(x)) by {
            assert(s =~= seq![s[0]] + tail);
            assert((seq![s[0]] + tail).to_multiset() == seq![s[0]].to_multiset().add(
                tail.to_multiset(),
            ));
            assert((seq![s[0]] + rt).to_multiset() == seq![s[0]].to_multiset().add(
                rt.to_multiset(),
            ));
        }
        // provenance
        assert forall|j: int| 0 <= j < r.len() implies r[j] == x || s.contains(
            #[trigger] r[j],
        ) by {
            if j == 0 {
                assert(s.contains(s[0])) by {
                    assert(s[0] == s[0]);
                }
            } else {
                assert(r[j] == rt[j - 1]);
                if rt[j - 1] != x {
                    assert(tail.contains(rt[j - 1]));
                    let w = choose|w: int| 0 <= w < tail.len() && tail[w] == rt[j - 1];
                    assert(s[w + 1] == tail[w]);
                }
            }
        }
    } else {
        assert(r =~= seq![x] + s);
        assert(seq![x].to_multiset() =~= Multiset::<TargetDetails>::empty().insert(x)) by {
            assert(seq![x] =~= Seq::<TargetDetails>::empty().push(x));
        }
        assert(r.to_multiset() =~= s.to_multiset().insert(x)) by {
            assert((seq![x] + s).to_multiset() == seq![x].to_multiset().add(s.to_multiset()));
        }
        assert forall|j: int| 0 <= j < r.len() implies r[j] == x || s.contains(
            #[trigger] r[j],
        ) by {
            if j > 0 {
                assert(r[j] == s[j - 1]);
            }
        }
    }
}

/// The law of the ordering contract: sorting a target list yields a list
/// sorted ascending by IPv4 value that holds exactly the same targets, each
/// kept as often as it occurred. Every display and every export renders
/// `sort_targets` of its input, so this pins the one shared ordering.
pub proof fn lemma_sort_targets(s: Seq<TargetDetails>)
    ensures
        sorted_by_ipv4(sort_targets(s)),
        sort_targets(s).to_multiset() == s.to_multiset(),
        sort_targets(s).len() == s.len(),
    decreases s.len(),
{
    broadcast use group_to_multiset_ensures;

    if s.len() == 0 {
    } else {
        lemma_sort_targets(s.drop_last());
        lemma_insert_sorted(s.last(), sort_targets(s.drop_last()));
        assert(s =~= s.drop_last().push(s.last()));
        assert(s.drop_last().push(s.last()).to_multiset() =~= s.drop_last().to_multiset().insert(
            s.last(),
        ));
    }
}

fn ipv4_value_exec(ip: &Ipv4Address) -> (r: u32)
    ensures
        r as int == ip.value(),
{
    (ip.o1 as u32) * 0x1000000 + (ip.o2 as u32) * 0x10000 + (ip.o3 as u32) * 0x100 + (
    ip.o4 as u32)
}

fn insert_by_ipv4(x: TargetDetails, v: Vec<TargetDetails>) -> (r: Vec<TargetDetails>)
    ensures
        r@ == insert_sorted(x, v@),
    decreases v@.len(),
{
    let mut v = v;
    if v.len() == 0 {
        let mut r: Vec<TargetDetails> = Vec::new();
        r.push(x);
        proof {
            assert(r@ =~= seq![x]);
        }
        r
    } else {
        let ghost orig = v@;
        let head = v.remove(0);
        proof {
            assert(v@ =~= orig.drop_first());
        }
        if ipv4_value_exec(&head.ipv4) <= ipv4_value_exec(&x.ipv4) {
            let ghost tail = v@;
            let mut rest = insert_by_ipv4(x, v);
            rest.insert(0, head);
            proof {
                assert(rest@ =~= seq![head] + insert_sorted(x, tail));
            }
            rest
        } else {
            v.insert(0, head);
            v.insert(0, x);
            proof {
                assert(v@ =~= seq![x] + orig);
            }
            v
        }
    }
}

/// Sorts targets ascending by IPv4 address; equal addresses keep their
/// original relative order.
pub fn sort_by_ipv4(targets: Vec<TargetDetails>) -> (r: Vec<TargetDetails>)
    ensures
        r@ == sort_targets(targets@),
    decreases targets@.len(),
{
    let mut v = targets;
    if v.len() == 0 {
        v
    } else {
        let ghost orig = v@;
        let last = v.pop().unwrap();
        proof {
            assert(v@ =~= orig.drop_last());
            assert(last == orig.last());
        }
        let sorted = sort_by_ipv4(v);
        insert_by_ipv4(last, sorted)
    }
}

/// The hostname column width: at least fifteen, widened to the longest
/// present hostname.
pub open spec fn hostname_width(s: Seq<TargetDetails>) -> int
    decreases s.len(),
{
    if s.len() == 0 {
        15
    } else {
        let w = hostname_width(s.drop_last());
        match s.last().hostname {
            Some(h) => if h@.len() > w {
                h@.len() as int
            } else {
                w
            },
            None => w,
        }
    }
}

/// The vendor column width: at least fifteen, widened to the longest
/// present vendor name.
pub open spec fn vendor_width(s: Seq<TargetDetails>) -> int
    decreases s.len(),
{
    if s.len() == 0 {
        15
    } else {
        let w = vendor_width(s.drop_last());
        match s.last().vendor {
            Some(v) => if v@.len() > w {
                v@.len() as int
            } else {
                w
            },
            None => w,
        }
    }
}

/// The law of the hostname column: its width is the maximum of fifteen and
/// the length of the longest present hostname — every present hostname
/// fits, and the width is fifteen or witnessed by some hostname.
pub proof fn lemma_hostname_width_is_max(s: Seq<TargetDetails>)
    ensures
        hostname_width(s) >= 15,
        forall|i: int|
            0 <= i < s.len() ==> ((#[trigger] s[i].hostname) matches Some(h) ==> h@.len()
                <= hostname_width(s)),
        hostname_width(s) == 15 || exists|i: int|
            0 <= i < s.len() && ((#[trigger] s[i].hostname) matches Some(h) && h@.len()
                == hostname_width(s)),
    decreases s.len(),
{
    if s.len() > 0 {
        lemma_hostname_width_is_max(s.drop_last());
        assert(forall|i: int| 0 <= i < s.len() - 1 ==> s.drop_last()[i] == s[i]);
        assert(s.drop_last().len() == s.len() - 1);
        if hostname_width(s) != 15 {
            if s.last().hostname matches Some(h) && h@.len() == hostname_width(s) {
                assert(s[s.len() - 1].hostname matches Some(h2) && h2@.len() == hostname_width(
                    s,
                ));
            } else {
                let w = choose|w: int|
                    0 <= w < s.len() - 1 && (#[trigger] s.drop_last()[w].hostname matches Some(
                        h,
                    ) && h@.len() == hostname_width(s.drop_last()));
                assert(s[w].hostname matches Some(h) && h@.len() == hostname_width(s));
            }
        }
    }
}

/// The law of the vendor column, the same way: the width is the maximum of
/// fifteen and the length of the longest present vendor name.
pub proof fn lemma_vendor_width_is_max(s: Seq<TargetDetails>)
    ensures
        vendor_width(s) >= 15,
        forall|i: int|
            0 <= i < s.len() ==> ((#[trigger] s[i].vendor) matches Some(v) ==> v@.len()
                <= vendor_width(s)),
        vendor_width(s) == 15 || exists|i: int|
            0 <= i < s.len() && ((#[trigger] s[i].vendor) matches Some(v) && v@.len()
                == vendor_width(s)),
    decreases s.len(),
{
    if s.len() > 0 {
        lemma_vendor_width_is_max(s.drop_last());
        assert(forall|i: int| 0 <= i < s.len() - 1 ==> s.drop_last()[i] == s[i]);
        assert(s.drop_last().len() == s.len() - 1);
        if vendor_width(s) != 15 {
            if s.last().vendor matches Some(v) && v@.len() == vendor_width(s) {
                assert(s[s.len() - 1].vendor matches Some(v2) && v2@.len() == vendor_width(s));
            } else {
                let w = choose|w: int|
                    0 <= w < s.len() - 1 && (#[trigger] s.drop_last()[w].vendor matches Some(
                        v,
                    ) && v@.len() == vendor_width(s.drop_last()));
                assert(s[w].vendor matches Some(v) && v@.len() == vendor_width(s));
            }
        }
    }
}

/// The hostname cell of one row: the hostname where present; where absent,
/// the literal "(disabled)" if resolution was switched off, and empty if
/// resolution was on but failed for this host.
pub open spec fn hostname_cell(t: TargetDetails, resolve_hostname: bool) -> Seq<char> {
    match t.hostname {
        Some(h) => h@,
        None => if !resolve_hostname {
            "(disabled)"@
        } else {
            Seq::empty()
        },
    }
}

/// The vendor cell of one row: the vendor where present, else empty.
pub open spec fn vendor_cell(t: TargetDetails) -> Seq<char> {
    match t.vendor {
        Some(v) => v@,
        None => Seq::empty(),
    }
}

/// One table row, each cell left-aligned in its column.
pub open spec fn target_row(t: TargetDetails, h: int, v: int, resolve_hostname: bool) -> Seq<
    char,
> {
    "| "@ + pad_right(ipv4_seq(t.ipv4), 15, ' ') + " | "@ + pad_right(mac_seq(t.mac), 18, ' ')
        + " | "@ + pad_right(hostname_cell(t, resolve_hostname), h, ' ') + " | "@ + pad_right(
        vendor_cell(t),
        v,
        ' ',
    ) + " |\n"@
}

/// All table rows in order.
pub open spec fn target_rows(s: Seq<TargetDetails>, h: int, v: int, resolve_hostname: bool) -> Seq<
    char,
>
    decreases s.len(),
{
    if s.len() == 0 {
        Seq::empty()
    } else {
        target_rows(s.drop_last(), h, v, resolve_hostname) + target_row(
            s.last(),
            h,
            v,
            resolve_hostname,
        )
    }
}

/// The header and rule rows, sized to the computed column widths.
pub open spec fn table_header(h: int, v: int) -> Seq<char> {
    "| IPv4            | MAC               | "@ + pad_right("Hostname"@, h, ' ') + " | "@
        + pad_right("Vendor"@, v, ' ') + " |\n"@ + "|-----------------|-------------------|-"@
        + fill('-', h) + "-|-"@ + fill('-', v) + "-|\n"@
}

/// The host-count phrase: an emphasized "no hosts found", "1 host found",
/// or the count with the plural form.
pub open spec fn hosts_phrase(n: nat) -> Seq<char> {
    if n == 0 {
        "\u{1b}[31mno hosts found\u{1b}[0m"@
    } else if n == 1 {
        "1 host found"@
    } else {
        dec_seq(n) + " hosts found"@
    }
}

/// The received-packet phrase over the 0/1/many boundary.
pub open spec fn packets_phrase(n: nat) -> Seq<char> {
    if n == 0 {
        "No packets received"@
    } else if n == 1 {
        "1 packet received"@
    } else {
        dec_seq(n) + " packets received"@
    }
}

/// The filtered-ARP-packet phrase over the 0/1/many boundary.
pub open spec fn arp_phrase(n: nat) -> Seq<char> {
    if n == 0 {
        "no ARP packets filtered"@
    } else if n == 1 {
        "1 ARP packet filtered"@
    } else {
        dec_seq(n) + " ARP packets filtered"@
    }
}

/// A millisecond duration as seconds with exactly three decimal places.
pub open spec fn duration_seq(ms: nat) -> Seq<char> {
    dec_seq(ms / 1000) + seq!['.'] + frac3(ms % 1000)
}

/// A value below one thousand, zero-padded to three digits.
pub open spec fn frac3(f: nat) -> Seq<char> {
    if f < 10 {
        seq!['0', '0'] + dec_seq(f)
    } else if f < 100 {
        seq!['0'] + dec_seq(f)
    } else {
        dec_seq(f)
    }
}

/// The whole results report for an already-sorted target list: a blank
/// line, header and rows when any target was found, then the two summary
/// lines and a closing blank line.
pub open spec fn scan_report(
    sorted: Seq<TargetDetails>,
    summary: ResponseSummary,
    resolve_hostname: bool,
) -> Seq<char> {
    (if sorted.len() > 0 {
        "\n"@ + table_header(hostname_width(sorted), vendor_width(sorted))
    } else {
        Seq::empty()
    }) + target_rows(sorted, hostname_width(sorted), vendor_width(sorted), resolve_hostname)
        + "\n"@ + "ARP scan finished, "@ + hosts_phrase(sorted.len()) + " in "@ + duration_seq(
        summary.duration_ms as nat,
    ) + " seconds\n"@ + packets_phrase(summary.packet_count as nat) + ", "@ + arp_phrase(
        summary.arp_count as nat,
    ) + "\n"@ + "\n"@
}

/// Renders the host-count phrase.
pub fn hosts_phrase_string(n: usize) -> (r: String)
    ensures
        r@ == hosts_phrase(n as nat),
{
    let mut s = String::new();
    if n == 0 {
        s.append("\u{1b}[31mno hosts found\u{1b}[0m");
    } else if n == 1 {
        s.append("1 host found");
    } else {
        let d = dec_string(n as u128);
        s.append(d.as_str());
        s.append(" hosts found");
    }
    proof {
        assert(s@ =~= hosts_phrase(n as nat));
    }
    s
}

/// Renders the received-packet phrase.
pub fn packets_phrase_string(n: usize) -> (r: String)
    ensures
        r@ == packets_phrase(n as nat),
{
    let mut s = String::new();
    if n == 0 {
        s.append("No packets received");
    } else if n == 1 {
        s.append("1 packet received");
    } else {
        let d = dec_string(n as u128);
        s.append(d.as_str());
        s.append(" packets received");
    }
    proof {
        assert(s@ =~= packets_phrase(n as nat));
    }
    s
}

/// Renders the filtered-ARP-packet phrase.
pub fn arp_phrase_string(n: usize) -> (r: String)
    ensures
        r@ == arp_phrase(n as nat),
{
    let mut s = String::new();
    if n == 0 {
        s.append("no ARP packets filtered");
    } else if n == 1 {
        s.append("1 ARP packet filtered");
    } else {
        let d = dec_string(n as u128);
        s.append(d.as_str());
        s.append(" ARP packets filtered");
    }
    proof {
        assert(s@ =~= arp_phrase(n as nat));
    }
    s
}

/// Renders a millisecond duration as seconds with three decimal places.
pub fn duration_string(ms: u128) -> (r: String)
    ensures
        r@ == duration_seq(ms as nat),
{
    let mut s = dec_string(ms / 1000);
    s.append(".");
    let f: u128 = ms % 1000;
    if f < 10 {
        s.append("00");
    } else if f < 100 {
        s.append("0");
    }
    let d = dec_string(f);
    s.append(d.as_str());
    proof {
        assert("."@ =~= seq!['.']) by {
            reveal_strlit(".");
        }
        assert("00"@ =~= seq!['0', '0']) by {
            reveal_strlit("00");
        }
        assert("0"@ =~= seq!['0']) by {
            reveal_strlit("0");
        }
        assert(s@ =~= duration_seq(ms as nat));
    }
    s
}

#[verifier::rlimit(50)]
fn append_target_row(
    out: &mut String,
    t: &TargetDetails,
    hostname_len: usize,
    vendor_len: usize,
    resolve: bool,
)
    ensures
        final(out)@ == old(out)@ + target_row(
            *t,
            hostname_len as int,
            vendor_len as int,
            resolve,
        ),
{
    out.append("| ");
    let ip_text = ipv4_string(&t.ipv4);
    append_padded(out, ip_text.as_str(), 15, true);
    out.append(" | ");
    let mac_text = mac_string(&t.mac);
    append_padded(out, mac_text.as_str(), 18, true);
    out.append(" | ");
    match &t.hostname {
        Some(h) => append_padded(out, h.as_str(), hostname_len, true),
        None => {
            if !resolve {
                append_padded(out, "(disabled)", hostname_len, true);
            } else {
                append_padded(out, "", hostname_len, true);
            }
        },
    }
    out.append(" | ");
    match &t.vendor {
        Some(v) => append_padded(out, v.as_str(), vendor_len, true),
        None => append_padded(out, "", vendor_len, true),
    }
    out.append(" |\n");
    proof {
        assert(""@ =~= Seq::<char>::empty()) by {
            reveal_strlit("");
        }
        assert(out@ =~= old(out)@ + target_row(*t, hostname_len as int, vendor_len as int, resolve));
    }
}

/// Renders the post-scan results table and summary lines.
///
/// The targets are first sorted ascending by IPv4 address; the hostname and
/// vendor columns are as wide as their longest value, and at least fifteen;
/// an absent hostname shows "(disabled)" exactly when resolution was
/// switched off.
pub fn display_scan_results(
    response_summary: ResponseSummary,
    target_details: Vec<TargetDetails>,
    options: &ScanOptions,
) -> (r: String)
    ensures
        r@ == scan_report(sort_targets(target_details@), response_summary, options.resolve_hostname),
{
    let sorted = sort_by_ipv4(target_details);
    let ghost sseq = sorted@;
    let resolve = options.resolve_hostname;

    // column widths
    let mut hostname_len: usize = 15;
    let mut vendor_len: usize = 15;
    let mut i: usize = 0;
    let n: usize = sorted.len();
    proof {
        assert(sseq.take(0) =~= Seq::<TargetDetails>::empty());
    }
    while i < n
        invariant
            i <= n == sseq.len(),
            sorted@ == sseq,
            hostname_len == hostname_width(sseq.take(i as int)),
            vendor_len == vendor_width(sseq.take(i as int)),
        decreases n - i,
    {
        match &sorted[i].hostname {
            Some(h) => {
                let l: usize = h.as_str().unicode_len();
                if l > hostname_len {
                    hostname_len = l;
                }
            },
            None => {},
        }
        match &sorted[i].vendor {
            Some(v) => {
                let l: usize = v.as_str().unicode_len();
                if l > vendor_len {
                    vendor_len = l;
                }
            },
            None => {},
        }
        proof {
            assert(sseq.take(i + 1).drop_last() =~= sseq.take(i as int));
            assert(sseq.take(i + 1).last() == sseq[i as int]);
        }
        i = i + 1;
    }
    proof {
        assert(sseq.take(n as int) =~= sseq);
    }
    let ghost hw = hostname_width(sseq);
    let ghost vw = vendor_width(sseq);

    let mut out = String::new();
    if sorted.len() > 0 {
        out.append("\n");
        out.append("| IPv4            | MAC               | ");
        append_padded(&mut out, "Hostname", hostname_len, true);
        out.append(" | ");
        append_padded(&mut out, "Vendor", vendor_len, true);
        out.append(" |\n");
        out.append("|-----------------|-------------------|-");
        append_padded(&mut out, "", hostname_len, false);
        out.append("-|-");
        append_padded(&mut out, "", vendor_len, false);
        out.append("-|\n");
        proof {
            assert(""@ =~= Seq::<char>::empty()) by {
                reveal_strlit("");
            }
            assert(pad_right(Seq::<char>::empty(), hw, '-') =~= fill('-', hw));
            assert(pad_right(Seq::<char>::empty(), vw, '-') =~= fill('-', vw));
            assert(out@ =~= "\n"@ + table_header(hw, vw));
        }
    }
    let ghost head = out@;

    let mut i: usize = 0;
    proof {
        assert(target_rows(sseq.take(0), hw, vw, resolve) =~= Seq::<char>::empty());
        assert(out@ =~= head + target_rows(sseq.take(0), hw, vw, resolve));
    }
    while i < n
        invariant
            i <= n == sseq.len(),
            sorted@ == sseq,
            hostname_len == hw,
            vendor_len == vw,
            resolve == options.resolve_hostname,
            out@ == head + target_rows(sseq.take(i as int), hw, vw, resolve),
        decreases n - i,
    {
        append_target_row(&mut out, &sorted[i], hostname_len, vendor_len, resolve);
        proof {
            assert(sseq.take(i + 1).drop_last() =~= sseq.take(i as int));
            assert(sseq.take(i + 1).last() == sseq[i as int]);
            assert(out@ =~= head + target_rows(sseq.take(i + 1), hw, vw, resolve));
        }
        i = i + 1;
    }
    proof {
        assert(sseq.take(n as int) =~= sseq);
    }

    out.append("\n");
    out.append("ARP scan finished, ");
    let hp = hosts_phrase_string(sorted.len());
    out.append(hp.as_str());
    out.append(" in ");
    let du = duration_string(response_summary.duration_ms);
    out.append(du.as_str());
    out.append(" seconds\n");
    let pp = packets_phrase_string(response_summary.packet_count);
    out.append(pp.as_str());
    out.append(", ");
    let ap = arp_phrase_string(response_summary.arp_count);
    out.append(ap.as_str());
    out.append("\n");
    out.append("\n");
    proof {
        assert(out@ =~= scan_report(sseq, response_summary, resolve));
    }
    out
}

} // verus!
