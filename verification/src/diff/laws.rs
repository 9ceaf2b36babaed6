//! What holds of every diff: a capture diffed against itself is empty; an
//! empty diff means the two captures agree on everything compared; a diff
//! taken the other way round is the same diff with its sides swapped; each
//! side shows its own capture's values; and the divergence it reports is
//! the first, described by the values found there.
use vstd::prelude::*;
use crate::capture::{CaptureModel, RawRecord, RunMode, run_mode_token};
use crate::diff::{
    DiffModel, diff_model, differing, first_difference, first_divergence, header_fields,
    header_text, records_differ, render_text, seed_text, summary_text,
};
use crate::text::{ascii_chars, dec_digits, dec_text, hex_digits, hex_text};
use crate::wire::{lemma_dec_value_digits, lemma_hex_value_digits};

verus! {

proof fn lemma_differing_none(fs: Seq<(Seq<char>, Seq<char>, Seq<char>)>)
    requires
        forall|i: int| 0 <= i < fs.len() ==> (#[trigger] fs[i]).1 == fs[i].2,
    ensures
        differing(fs).len() == 0,
    decreases fs.len(),
{
    if fs.len() > 0 {
        let init = fs.drop_last();
        assert forall|i: int| 0 <= i < init.len() implies (#[trigger] init[i]).1 == init[i].2 by {
            assert(init[i] == fs[i]);
        }
        lemma_differing_none(init);
        assert(fs.last() == fs[fs.len() - 1]);
    }
}

proof fn lemma_differing_empty(fs: Seq<(Seq<char>, Seq<char>, Seq<char>)>)
    requires
        differing(fs).len() == 0,
    ensures
        forall|i: int| 0 <= i < fs.len() ==> (#[trigger] fs[i]).1 == fs[i].2,
    decreases fs.len(),
{
    if fs.len() > 0 {
        let init = fs.drop_last();
        assert(fs.last().1 == fs.last().2);
        lemma_differing_empty(init);
        assert forall|i: int| 0 <= i < fs.len() implies (#[trigger] fs[i]).1 == fs[i].2 by {
            if i < fs.len() - 1 {
                assert(fs[i] == init[i]);
            } else {
                assert(fs[i] == fs.last());
            }
        }
    }
}

proof fn lemma_first_difference_same(s: Seq<RawRecord>, i: nat)
    requires
        i <= s.len(),
    ensures
        first_difference(s, s, i) == s.len(),
    decreases s.len() - i,
{
    if i < s.len() {
        lemma_first_difference_same(s, i + 1);
    }
}

proof fn lemma_first_difference_none(a: Seq<RawRecord>, b: Seq<RawRecord>, i: nat)
    requires
        i <= a.len(),
        i <= b.len(),
        first_difference(a, b, i) >= (if a.len() < b.len() { a.len() } else { b.len() }),
    ensures
        forall|j: int|
            i <= j < (if a.len() < b.len() { a.len() } else { b.len() }) ==> !records_differ(
                #[trigger] a[j],
                b[j],
            ),
    decreases (if a.len() < b.len() { a.len() } else { b.len() }) - i,
{
    let m = if a.len() < b.len() { a.len() } else { b.len() };
    if i < m {
        lemma_first_difference_none(a, b, i + 1);
    }
}

proof fn lemma_ascii_chars_injective(x: Seq<u8>, y: Seq<u8>)
    requires
        ascii_chars(x) == ascii_chars(y),
    ensures
        x == y,
{
    assert(x.len() == ascii_chars(x).len());
    assert(y.len() == ascii_chars(y).len());
    assert forall|i: int| 0 <= i < x.len() implies x[i] == y[i] by {
        assert(ascii_chars(x)[i] == ascii_chars(y)[i]);
        assert(ascii_chars(x)[i] == x[i] as char);
        assert(ascii_chars(y)[i] == y[i] as char);
    }
    assert(x =~= y);
}

proof fn lemma_dec_text_injective(x: nat, y: nat)
    requires
        dec_text(x) == dec_text(y),
    ensures
        x == y,
{
    lemma_ascii_chars_injective(dec_digits(x), dec_digits(y));
    lemma_dec_value_digits(x);
    lemma_dec_value_digits(y);
}

proof fn lemma_hex_text_injective(x: nat, y: nat, w: nat)
    requires
        hex_text(x, w) == hex_text(y, w),
    ensures
        x == y,
{
    lemma_ascii_chars_injective(hex_digits(x, w), hex_digits(y, w));
    lemma_hex_value_digits(x, w);
    lemma_hex_value_digits(y, w);
}

proof fn lemma_prefix_cancel(p: Seq<char>, s: Seq<char>, t: Seq<char>)
    requires
        p + s == p + t,
    ensures
        s == t,
{
    assert(s =~= (p + s).subrange(p.len() as int, (p + s).len() as int));
    assert(t =~= (p + t).subrange(p.len() as int, (p + t).len() as int));
}

proof fn lemma_seed_text_injective(x: Option<u32>, y: Option<u32>)
    requires
        seed_text(x) == seed_text(y),
    ensures
        x == y,
{
    reveal_strlit("Some(");
    reveal_strlit(")");
    reveal_strlit("None");
    match (x, y) {
        (Some(u), Some(v)) => {
            let tu = "Some("@ + dec_text(u as nat) + ")"@;
            let tv = "Some("@ + dec_text(v as nat) + ")"@;
            assert(dec_text(u as nat) =~= tu.subrange(5, tu.len() - 1));
            assert(dec_text(v as nat) =~= tv.subrange(5, tv.len() - 1));
            lemma_dec_text_injective(u as nat, v as nat);
        },
        (Some(u), None) => {
            assert(seed_text(x)[0] == 'S');
            assert(seed_text(y)[0] == 'N');
        },
        (None, Some(v)) => {
            assert(seed_text(x)[0] == 'N');
            assert(seed_text(y)[0] == 'S');
        },
        (None, None) => {},
    }
}

proof fn lemma_run_mode_token_injective(x: RunMode, y: RunMode)
    requires
        run_mode_token(x)@ == run_mode_token(y)@,
    ensures
        x == y,
{
    reveal_strlit("SD");
    reveal_strlit("JTAG");
    reveal_strlit("SIM");
    assert("SD"@.len() == 2 && "JTAG"@.len() == 4 && "SIM"@.len() == 3);
    assert("SD"@ != "SIM"@);
}

/// A capture diffed against itself is empty: no header field differs, the
/// event counts agree, and no event diverges.
pub proof fn lemma_diff_self_empty(c: CaptureModel)
    ensures
        diff_model(c, c).is_empty(),
{
    let fs = header_fields(c, c);
    assert forall|i: int| 0 <= i < fs.len() implies (#[trigger] fs[i]).1 == fs[i].2 by {}
    lemma_differing_none(fs);
    lemma_first_difference_same(c.records, 0);
}

/// An empty diff means the two captures agree on every compared field (run
/// mode, instrument id and version, proto version, timestamp domain, seed,
/// the rendered header summary, tool revision, dependency stack) and on
/// every event.
pub proof fn lemma_empty_diff_agrees(a: CaptureModel, b: CaptureModel)
    requires
        diff_model(a, b).is_empty(),
    ensures
        a.run_mode == b.run_mode,
        a.instrument_id == b.instrument_id,
        a.instrument_version == b.instrument_version,
        a.proto_version == b.proto_version,
        a.core_clock_hz == b.core_clock_hz,
        a.seed == b.seed,
        summary_text(a.header_summary) == summary_text(b.header_summary),
        a.tool_rev == b.tool_rev,
        a.deps == b.deps,
        a.records == b.records,
{
    let fs = header_fields(a, b);
    lemma_differing_empty(fs);
    assert(fs[0].1 == fs[0].2);
    lemma_run_mode_token_injective(a.run_mode, b.run_mode);
    assert(fs[1].1 == fs[1].2);
    lemma_prefix_cancel("0x"@, hex_text(a.instrument_id as nat, 4), hex_text(b.instrument_id as nat, 4));
    lemma_hex_text_injective(a.instrument_id as nat, b.instrument_id as nat, 4);
    assert(fs[2].1 == fs[2].2);
    lemma_dec_text_injective(a.instrument_version as nat, b.instrument_version as nat);
    assert(fs[3].1 == fs[3].2);
    lemma_dec_text_injective(a.proto_version as nat, b.proto_version as nat);
    assert(fs[4].1 == fs[4].2);
    lemma_dec_text_injective(a.core_clock_hz as nat, b.core_clock_hz as nat);
    assert(fs[5].1 == fs[5].2);
    lemma_seed_text_injective(a.seed, b.seed);
    assert(fs[6].1 == fs[6].2);
    assert(fs[7].1 == fs[7].2);
    assert(fs[8].1 == fs[8].2);
    lemma_first_difference_none(a.records, b.records, 0);
    assert forall|j: int| 0 <= j < a.records.len() implies a.records[j] == b.records[j] by {
        assert(!records_differ(a.records[j], b.records[j]));
    }
    assert(a.records =~= b.records);
}

proof fn lemma_first_difference_is_first(a: Seq<RawRecord>, b: Seq<RawRecord>, s: nat)
    requires
        s <= a.len(),
        s <= b.len(),
    ensures
        s <= first_difference(a, b, s) <= (if a.len() < b.len() { a.len() } else { b.len() }),
        forall|j: int| s <= j < first_difference(a, b, s) ==> !records_differ(#[trigger] a[j], b[j]),
        first_difference(a, b, s) < (if a.len() < b.len() { a.len() } else { b.len() })
            ==> records_differ(a[first_difference(a, b, s) as int], b[first_difference(a, b, s) as int]),
    decreases (if a.len() < b.len() { a.len() } else { b.len() }) - s,
{
    let m = if a.len() < b.len() { a.len() } else { b.len() };
    if s < m && !records_differ(a[s as int], b[s as int]) {
        lemma_first_difference_is_first(a, b, s + 1);
    }
}

/// The divergence a diff reports is the first: every event before it
/// matches on both sides; at it, the events differ, or one stream has
/// ended and the counts differ; and there is none exactly when the streams
/// are the same.
pub proof fn lemma_first_divergence_located(a: Seq<RawRecord>, b: Seq<RawRecord>)
    ensures
        first_divergence(a, b) is None <==> a == b,
        first_divergence(a, b) matches Some((i, _)) ==> {
            &&& forall|j: int| 0 <= j < i ==> !records_differ(#[trigger] a[j], b[j])
            &&& i <= a.len() && i <= b.len()
            &&& (i < a.len() && i < b.len() ==> records_differ(a[i as int], b[i as int]))
            &&& (i == a.len() || i == b.len() ==> a.len() != b.len())
        },
{
    lemma_first_difference_is_first(a, b, 0);
    if first_divergence(a, b) is None {
        assert forall|j: int| 0 <= j < a.len() implies a[j] == b[j] by {
            assert(!records_differ(a[j], b[j]));
        }
        assert(a =~= b);
    }
    if a == b {
        lemma_first_difference_same(a, 0);
    }
}

/// An empty diff reads the same both ways round.
pub proof fn lemma_empty_diff_symmetric(a: CaptureModel, b: CaptureModel)
    ensures
        diff_model(a, b).is_empty() <==> diff_model(b, a).is_empty(),
{
    if diff_model(a, b).is_empty() {
        lemma_empty_diff_agrees(a, b);
        let fs = header_fields(b, a);
        assert forall|i: int| 0 <= i < fs.len() implies (#[trigger] fs[i]).1 == fs[i].2 by {}
        lemma_differing_none(fs);
        lemma_first_difference_same(a.records, 0);
    }
    if diff_model(b, a).is_empty() {
        lemma_empty_diff_agrees(b, a);
        let fs = header_fields(a, b);
        assert forall|i: int| 0 <= i < fs.len() implies (#[trigger] fs[i]).1 == fs[i].2 by {}
        lemma_differing_none(fs);
        lemma_first_difference_same(b.records, 0);
    }
}

/// Each entry with its two values swapped.
pub open spec fn swapped(fs: Seq<(Seq<char>, Seq<char>, Seq<char>)>) -> Seq<
    (Seq<char>, Seq<char>, Seq<char>),
> {
    fs.map_values(|f: (Seq<char>, Seq<char>, Seq<char>)| (f.0, f.2, f.1))
}

proof fn lemma_differing_swapped(fs: Seq<(Seq<char>, Seq<char>, Seq<char>)>)
    ensures
        differing(swapped(fs)) == swapped(differing(fs)),
    decreases fs.len(),
{
    if fs.len() > 0 {
        let init = fs.drop_last();
        lemma_differing_swapped(init);
        assert(swapped(fs).drop_last() =~= swapped(init));
        assert(swapped(fs).last() == (fs.last().0, fs.last().2, fs.last().1));
        if fs.last().1 != fs.last().2 {
            assert(swapped(differing(init).push(fs.last())) =~= swapped(differing(init)).push(
                (fs.last().0, fs.last().2, fs.last().1),
            ));
        }
    } else {
        assert(swapped(fs) =~= fs);
        assert(swapped(differing(fs)) =~= differing(fs));
    }
}

proof fn lemma_first_difference_swapped(a: Seq<RawRecord>, b: Seq<RawRecord>, i: nat)
    ensures
        first_difference(b, a, i) == first_difference(a, b, i),
    decreases (if a.len() < b.len() { a.len() } else { b.len() }) - i,
{
    let m = if a.len() < b.len() { a.len() } else { b.len() };
    if i < m && !records_differ(a[i as int], b[i as int]) {
        lemma_first_difference_swapped(a, b, i + 1);
    }
}

/// A diff taken the other way round lists the same header fields in the
/// same order with their two values swapped, swaps the event counts, and
/// finds the first divergence at the same index.
pub proof fn lemma_diff_swapped(a: CaptureModel, b: CaptureModel)
    ensures
        diff_model(b, a).header == swapped(diff_model(a, b).header),
        diff_model(b, a).events_a == diff_model(a, b).events_b,
        diff_model(b, a).events_b == diff_model(a, b).events_a,
        diff_model(b, a).first_event is Some <==> diff_model(a, b).first_event is Some,
        diff_model(b, a).first_event matches Some((i, _)) ==> diff_model(a, b).first_event
            matches Some((j, _)) && i == j,
        diff_model(b, a).is_empty() == diff_model(a, b).is_empty(),
{
    assert(header_fields(b, a) =~= swapped(header_fields(a, b)));
    lemma_differing_swapped(header_fields(a, b));
    lemma_first_difference_swapped(a.records, b.records, 0);
    assert(swapped(diff_model(a, b).header).len() == diff_model(a, b).header.len());
}

/// Captures that agree on every compared field and event diff empty.
pub proof fn lemma_agreement_diffs_empty(a: CaptureModel, b: CaptureModel)
    requires
        crate::diff::captures_agree(a, b),
    ensures
        diff_model(a, b).is_empty(),
{
    let fs = header_fields(a, b);
    assert forall|i: int| 0 <= i < fs.len() implies (#[trigger] fs[i]).1 == fs[i].2 by {}
    lemma_differing_none(fs);
    lemma_first_difference_same(a.records, 0);
}

/// Reads an event divergence's detail: `tag A/B, t A/B, payload 0xA/0xB`,
/// each pair side A's value then side B's: the six numbers in order.
pub open spec fn detail_reading(t: Seq<char>) -> Option<(nat, nat, nat, nat, nat, nat)> {
    let b = crate::wire::text_bytes(t);
    let big = 0xFFFF_FFFFnat;
    match crate::wire::lit_at(b, 0, crate::wire::lit("tag ")) {
        None => None,
        Some(p1) => match crate::wire::dec_at(b, p1, big) {
            None => None,
            Some((tag_a, p2)) => match crate::wire::lit_at(b, p2, crate::wire::lit("/")) {
                None => None,
                Some(p3) => match crate::wire::dec_at(b, p3, big) {
                    None => None,
                    Some((tag_b, p4)) => match crate::wire::lit_at(b, p4, crate::wire::lit(", t ")) {
                        None => None,
                        Some(p5) => match crate::wire::dec_at(b, p5, big) {
                            None => None,
                            Some((t_a, p6)) => match crate::wire::lit_at(b, p6, crate::wire::lit("/")) {
                                None => None,
                                Some(p7) => match crate::wire::dec_at(b, p7, big) {
                                    None => None,
                                    Some((t_b, p8)) => match crate::wire::lit_at(
                                        b,
                                        p8,
                                        crate::wire::lit(", payload 0x"),
                                    ) {
                                        None => None,
                                        Some(p9) => match crate::wire::hex_run_at(b, p9) {
                                            None => None,
                                            Some((pay_a, p10)) => match crate::wire::lit_at(
                                                b,
                                                p10,
                                                crate::wire::lit("/0x"),
                                            ) {
                                                None => None,
                                                Some(p11) => match crate::wire::hex_run_at(b, p11) {
                                                    Some((pay_b, e)) => if e == b.len() {
                                                        Some((tag_a, tag_b, t_a, t_b, pay_a, pay_b))
                                                    } else {
                                                        None
                                                    },
                                                    None => None,
                                                },
                                            },
                                        },
                                    },
                                },
                            },
                        },
                    },
                },
            },
        },
    }
}

proof fn lemma_peel(b: Seq<u8>, c: Seq<char>, p: Seq<char>)
    requires
        crate::wire::is_prefix_at(b, 0, crate::wire::text_bytes(c + p)),
    ensures
        crate::wire::is_prefix_at(b, 0, crate::wire::text_bytes(c)),
        crate::wire::is_prefix_at(b, c.len() as int, crate::wire::text_bytes(p)),
{
    crate::wire::lemma_text_bytes_concat(c, p);
    crate::wire::lemma_prefix_split(b, 0, crate::wire::text_bytes(c), crate::wire::text_bytes(p));
}

/// The detail of an event divergence reads back as the two records' tags,
/// timestamps and payloads, side A's before side B's in each pair.
#[verifier::spinoff_prover]
#[verifier::rlimit(50)]
pub proof fn lemma_detail_reads_back(x: RawRecord, y: RawRecord)
    ensures
        detail_reading(crate::diff::event_detail(x, y)) == Some(
            (
                x.tag as nat,
                y.tag as nat,
                x.timestamp as nat,
                y.timestamp as nat,
                x.payload as nat,
                y.payload as nat,
            ),
        ),
{
    reveal_strlit("tag ");
    reveal_strlit("/");
    reveal_strlit(", t ");
    reveal_strlit(", payload 0x");
    reveal_strlit("/0x");
    let t = crate::diff::event_detail(x, y);
    let b = crate::wire::text_bytes(t);
    let d1 = dec_digits(x.tag as nat);
    let d2 = dec_digits(y.tag as nat);
    let d3 = dec_digits(x.timestamp as nat);
    let d4 = dec_digits(y.timestamp as nat);
    let h1 = hex_digits(x.payload as nat, 0);
    let h2 = hex_digits(y.payload as nat, 0);
    let c1 = "tag "@;
    let c2 = c1 + ascii_chars(d1);
    let c3 = c2 + "/"@;
    let c4 = c3 + ascii_chars(d2);
    let c5 = c4 + ", t "@;
    let c6 = c5 + ascii_chars(d3);
    let c7 = c6 + "/"@;
    let c8 = c7 + ascii_chars(d4);
    let c9 = c8 + ", payload 0x"@;
    let c10 = c9 + ascii_chars(h1);
    let c11 = c10 + "/0x"@;
    assert(t == c11 + ascii_chars(h2));
    assert(b.subrange(0, b.len() as int) =~= b);
    lemma_peel(b, c11, ascii_chars(h2));
    lemma_peel(b, c10, "/0x"@);
    lemma_peel(b, c9, ascii_chars(h1));
    lemma_peel(b, c8, ", payload 0x"@);
    lemma_peel(b, c7, ascii_chars(d4));
    lemma_peel(b, c6, "/"@);
    lemma_peel(b, c5, ascii_chars(d3));
    lemma_peel(b, c4, ", t "@);
    lemma_peel(b, c3, ascii_chars(d2));
    lemma_peel(b, c2, "/"@);
    lemma_peel(b, c1, ascii_chars(d1));
    crate::wire::lemma_text_bytes_ascii(d1);
    crate::wire::lemma_text_bytes_ascii(d2);
    crate::wire::lemma_text_bytes_ascii(d3);
    crate::wire::lemma_text_bytes_ascii(d4);
    crate::wire::lemma_text_bytes_ascii(h1);
    crate::wire::lemma_text_bytes_ascii(h2);
    assert(crate::wire::text_bytes("tag "@) == crate::wire::lit("tag "));
    assert(crate::wire::text_bytes("/"@) == crate::wire::lit("/"));
    assert(crate::wire::text_bytes(", t "@) == crate::wire::lit(", t "));
    assert(crate::wire::text_bytes(", payload 0x"@) == crate::wire::lit(", payload 0x"));
    assert(crate::wire::text_bytes("/0x"@) == crate::wire::lit("/0x"));
    // each number is followed by a byte that is not one of its digits
    assert(b[c2.len() as int] == 47u8) by {
        crate::wire::lemma_prefix_byte(b, c2.len() as int, crate::wire::lit("/"), 0);
    }
    assert(b[c4.len() as int] == 44u8) by {
        crate::wire::lemma_prefix_byte(b, c4.len() as int, crate::wire::lit(", t "), 0);
    }
    assert(b[c6.len() as int] == 47u8) by {
        crate::wire::lemma_prefix_byte(b, c6.len() as int, crate::wire::lit("/"), 0);
    }
    assert(b[c8.len() as int] == 44u8) by {
        crate::wire::lemma_prefix_byte(b, c8.len() as int, crate::wire::lit(", payload 0x"), 0);
    }
    assert(b[c10.len() as int] == 47u8) by {
        crate::wire::lemma_prefix_byte(b, c10.len() as int, crate::wire::lit("/0x"), 0);
    }
    crate::wire::lemma_dec_at(b, c1.len() as int, x.tag as nat, 0xFFFF_FFFF);
    crate::wire::lemma_dec_at(b, c3.len() as int, y.tag as nat, 0xFFFF_FFFF);
    crate::wire::lemma_dec_at(b, c5.len() as int, x.timestamp as nat, 0xFFFF_FFFF);
    crate::wire::lemma_dec_at(b, c7.len() as int, y.timestamp as nat, 0xFFFF_FFFF);
    crate::wire::lemma_hex_run_at(b, c9.len() as int, x.payload as nat, 0);
    crate::wire::lemma_hex_run_at(b, c11.len() as int, y.payload as nat, 0);
}

/// A divergence at an event both streams hold is described by that
/// event's values, read back side A's first: the tags, the timestamps and
/// the payloads of the two records at the divergence's index.
pub proof fn lemma_divergence_detail(a: Seq<RawRecord>, b: Seq<RawRecord>)
    ensures
        first_divergence(a, b) matches Some((i, det)) ==> (i < a.len() && i < b.len()
            ==> detail_reading(det) == Some(
            (
                a[i as int].tag as nat,
                b[i as int].tag as nat,
                a[i as int].timestamp as nat,
                b[i as int].timestamp as nat,
                a[i as int].payload as nat,
                b[i as int].payload as nat,
            ),
        )),
{
    lemma_first_difference_is_first(a, b, 0);
    if let Some((i, det)) = first_divergence(a, b) {
        if i < a.len() && i < b.len() {
            lemma_detail_reads_back(a[i as int], b[i as int]);
        }
    }
}

/// Each side of a diff speaks of its own capture: the event counts are
/// A's and B's record counts, and each compared header field shows first
/// the value A alone gives it and then the value B alone gives it.
pub proof fn lemma_diff_sides(a: CaptureModel, b: CaptureModel, k: int)
    requires
        0 <= k < header_fields(a, b).len(),
    ensures
        diff_model(a, b).events_a == a.records.len(),
        diff_model(a, b).events_b == b.records.len(),
        header_fields(a, b).len() == header_fields(a, a).len(),
        header_fields(a, b).len() == header_fields(b, b).len(),
        header_fields(a, b)[k].0 == header_fields(a, a)[k].0,
        header_fields(a, b)[k].1 == header_fields(a, a)[k].1,
        header_fields(a, b)[k].2 == header_fields(b, b)[k].2,
{
}

/// Reads the detail of a divergence in length: `event count`, side A's
/// count, ` vs `, side B's count.
pub open spec fn count_reading(t: Seq<char>) -> Option<(nat, nat)> {
    let b = crate::wire::text_bytes(t);
    let big = 0xFFFF_FFFF_FFFF_FFFFnat;
    match crate::wire::lit_at(b, 0, crate::wire::lit("event count ")) {
        None => None,
        Some(p1) => match crate::wire::dec_at(b, p1, big) {
            None => None,
            Some((n_a, p2)) => match crate::wire::lit_at(b, p2, crate::wire::lit(" vs ")) {
                None => None,
                Some(p3) => match crate::wire::dec_at(b, p3, big) {
                    Some((n_b, e)) => if e == b.len() {
                        Some((n_a, n_b))
                    } else {
                        None
                    },
                    None => None,
                },
            },
        },
    }
}

/// Where the streams agree on all they share and differ in length, the
/// divergence is reported at the end of the shorter one, and its detail
/// reads back as side A's event count and then side B's.
#[verifier::spinoff_prover]
pub proof fn lemma_count_divergence_detail(a: Seq<RawRecord>, b: Seq<RawRecord>)
    requires
        a.len() <= 0xFFFF_FFFF_FFFF_FFFFnat,
        b.len() <= 0xFFFF_FFFF_FFFF_FFFFnat,
    ensures
        first_divergence(a, b) matches Some((i, det)) ==> (!(i < a.len() && i < b.len())
            ==> count_reading(det) == Some((a.len(), b.len()))),
{
    reveal_strlit("event count ");
    reveal_strlit(" vs ");
    if let Some((i, det)) = first_divergence(a, b) {
        if !(i < a.len() && i < b.len()) {
            let da = dec_digits(a.len());
            let db = dec_digits(b.len());
            let c1 = "event count "@;
            let c2 = c1 + ascii_chars(da);
            let c3 = c2 + " vs "@;
            assert(det == c3 + ascii_chars(db));
            let bb = crate::wire::text_bytes(det);
            assert(bb.subrange(0, bb.len() as int) =~= bb);
            lemma_peel(bb, c3, ascii_chars(db));
            lemma_peel(bb, c2, " vs "@);
            lemma_peel(bb, c1, ascii_chars(da));
            crate::wire::lemma_text_bytes_ascii(da);
            crate::wire::lemma_text_bytes_ascii(db);
            assert(crate::wire::text_bytes("event count "@) == crate::wire::lit("event count "));
            assert(crate::wire::text_bytes(" vs "@) == crate::wire::lit(" vs "));
            assert(bb[c2.len() as int] == 32u8) by {
                crate::wire::lemma_prefix_byte(bb, c2.len() as int, crate::wire::lit(" vs "), 0);
            }
            crate::wire::lemma_dec_at(bb, c1.len() as int, a.len(), 0xFFFF_FFFF_FFFF_FFFFnat);
            crate::wire::lemma_dec_at(bb, c3.len() as int, b.len(), 0xFFFF_FFFF_FFFF_FFFFnat);
        }
    }
}

/// Reads the events line of a rendered diff at `p`: `\n  events: `, the
/// first count, ` vs `, the second count.
pub open spec fn events_line_reading(t: Seq<char>, p: int) -> Option<(nat, nat)> {
    let b = crate::wire::text_bytes(t);
    let big = 0xFFFF_FFFF_FFFF_FFFFnat;
    match crate::wire::lit_at(b, p, crate::wire::lit("\n  events: ")) {
        None => None,
        Some(p1) => match crate::wire::dec_at(b, p1, big) {
            None => None,
            Some((n_a, p2)) => match crate::wire::lit_at(b, p2, crate::wire::lit(" vs ")) {
                None => None,
                Some(p3) => match crate::wire::dec_at(b, p3, big) {
                    Some((n_b, _)) => Some((n_a, n_b)),
                    None => None,
                },
            },
        },
    }
}

/// The render of a diff that is not empty gives, right after its header
/// lines, the events line, which reads back as side A's event count and
/// then side B's.
#[verifier::spinoff_prover]
#[verifier::rlimit(50)]
pub proof fn lemma_render_events_line(d: DiffModel)
    requires
        !d.is_empty(),
        d.events_a <= 0xFFFF_FFFF_FFFF_FFFFnat,
        d.events_b <= 0xFFFF_FFFF_FFFF_FFFFnat,
    ensures
        events_line_reading(
            render_text(d),
            ("diff: DIVERGENT"@.len() + header_text(d.header).len()) as int,
        ) == Some((d.events_a, d.events_b)),
{
    reveal_strlit("\n  events: ");
    reveal_strlit(" vs ");
    reveal_strlit("\n  first event divergence at index ");
    let t = render_text(d);
    let da = dec_digits(d.events_a);
    let db = dec_digits(d.events_b);
    let c1 = "diff: DIVERGENT"@ + header_text(d.header);
    let c2 = c1 + "\n  events: "@;
    let c3 = c2 + ascii_chars(da);
    let c4 = c3 + " vs "@;
    let c5 = c4 + ascii_chars(db);
    let tail: Seq<char> = match d.first_event {
        Some((i, detail)) => "\n  first event divergence at index "@ + dec_text(i) + ": "@
            + detail,
        None => Seq::empty(),
    };
    assert(t =~= c5 + tail);
    let bb = crate::wire::text_bytes(t);
    assert(bb.subrange(0, bb.len() as int) =~= bb);
    lemma_peel(bb, c5, tail);
    lemma_peel(bb, c4, ascii_chars(db));
    lemma_peel(bb, c3, " vs "@);
    lemma_peel(bb, c2, ascii_chars(da));
    lemma_peel(bb, c1, "\n  events: "@);
    crate::wire::lemma_text_bytes_ascii(da);
    crate::wire::lemma_text_bytes_ascii(db);
    assert(crate::wire::text_bytes("\n  events: "@) == crate::wire::lit("\n  events: "));
    assert(crate::wire::text_bytes(" vs "@) == crate::wire::lit(" vs "));
    assert(bb[c3.len() as int] == 32u8) by {
        crate::wire::lemma_prefix_byte(bb, c3.len() as int, crate::wire::lit(" vs "), 0);
    }
    if tail.len() > 0 {
        assert(tail[0] == '\n');
        assert(bb[c5.len() as int] == 10u8);
    }
    assert(c1.len() == "diff: DIVERGENT"@.len() + header_text(d.header).len());
    crate::wire::lemma_dec_at(bb, c2.len() as int, d.events_a, 0xFFFF_FFFF_FFFF_FFFFnat);
    crate::wire::lemma_dec_at(bb, c4.len() as int, d.events_b, 0xFFFF_FFFF_FFFF_FFFFnat);
}

} // verus!
