//! Two capture containers in, their divergences out: headers field by
//! field, and the first event divergence located by index.
//!
//! Refusals are inherited: each side of [`diff_bytes`] is read through
//! [`Capture::read`], so a version mismatch or a missing header refuses here
//! exactly as it does on a plain read.
use vstd::prelude::*;
use crate::capture::{Capture, CaptureModel, RawRecord, run_mode_token};
use crate::error::HostError;
use crate::text::{dec_text, hex_text, push_dec_str, push_hex_str};

pub mod laws;

verus! {

/// One header field that differs between two captures.
#[derive(Debug, Clone, PartialEq, Eq)]
pub struct FieldDiff {
    /// The field name.
    pub field: String,
    /// The value on side A.
    pub a: String,
    /// The value on side B.
    pub b: String,
}

impl View for FieldDiff {
    type V = (Seq<char>, Seq<char>, Seq<char>);

    open spec fn view(&self) -> (Seq<char>, Seq<char>, Seq<char>) {
        (self.field@, self.a@, self.b@)
    }
}

/// Where two captures' event streams first diverge.
#[derive(Debug, Clone, PartialEq, Eq)]
pub struct EventDivergence {
    /// The 0-based event index of the first divergence.
    pub index: usize,
    /// A description of what differs there.
    pub detail: String,
}

/// The result of diffing two captures.
#[derive(Debug, Clone)]
pub struct Diff {
    /// Header fields that differ.
    pub header: Vec<FieldDiff>,
    /// The event count on side A.
    pub events_a: usize,
    /// The event count on side B.
    pub events_b: usize,
    /// The first event divergence, if any.
    pub first_event: Option<EventDivergence>,
}

pub struct DiffModel {
    pub header: Seq<(Seq<char>, Seq<char>, Seq<char>)>,
    pub events_a: nat,
    pub events_b: nat,
    pub first_event: Option<(nat, Seq<char>)>,
}

impl View for Diff {
    type V = DiffModel;

    open spec fn view(&self) -> DiffModel {
        DiffModel {
            header: self.header@.map_values(|f: FieldDiff| f@),
            events_a: self.events_a as nat,
            events_b: self.events_b as nat,
            first_event: match self.first_event {
                Some(e) => Some((e.index as nat, e.detail@)),
                None => None,
            },
        }
    }
}

impl DiffModel {
    pub open spec fn is_empty(self) -> bool {
        self.header.len() == 0 && self.first_event is None && self.events_a == self.events_b
    }
}

impl Default for Diff {
    /// The empty diff: no differing field, no event on either side, no
    /// divergence.
    fn default() -> (d: Diff)
        ensures
            d@.header.len() == 0,
            d@.events_a == 0,
            d@.events_b == 0,
            d@.first_event is None,
    {
        Diff { header: Vec::new(), events_a: 0, events_b: 0, first_event: None }
    }
}

impl Diff {
    /// True if the two captures are identical in every compared field and
    /// event.
    pub fn is_empty(&self) -> (r: bool)
        ensures
            r == self@.is_empty(),
    {
        self.header.len() == 0 && self.first_event.is_none() && self.events_a == self.events_b
    }
}

/// The `Debug` form of a string: quoted, with its quotes, backslashes and
/// unprintable characters escaped.
pub uninterp spec fn debug_quoted(s: Seq<char>) -> Seq<char>;

/// `format!("{:?}", s)` for a `&str`: the string's `Debug` form. Its result
/// is named `debug_quoted` of the characters; the escaping rules themselves
/// (those of `char::escape_debug`) are left unstated. What is claimed of
/// them is that they can be undone: every backslash of the form opens an
/// escape (a backslash itself is written escaped), so no other string has
/// the same form.
#[verifier::external_body]
fn debug_str(s: &str) -> (r: String)
    ensures
        r@ == debug_quoted(s@),
        forall|t: Seq<char>| #[trigger] debug_quoted(t) == r@ ==> t == s@,
{
    format!("{:?}", s)
}

/// The `Debug` form of an optional seed.
pub open spec fn seed_text(s: Option<u32>) -> Seq<char> {
    match s {
        Some(x) => "Some("@ + dec_text(x as nat) + ")"@,
        None => "None"@,
    }
}

/// The `Debug` form of an optional header summary.
pub open spec fn summary_text(h: Option<Seq<char>>) -> Seq<char> {
    match h {
        Some(t) => "Some("@ + debug_quoted(t) + ")"@,
        None => "None"@,
    }
}

/// Each compared header field, with its value on either side, in order.
pub open spec fn header_fields(a: CaptureModel, b: CaptureModel) -> Seq<
    (Seq<char>, Seq<char>, Seq<char>),
> {
    seq![
        ("run_mode"@, run_mode_token(a.run_mode)@, run_mode_token(b.run_mode)@),
        (
            "instrument_id"@,
            "0x"@ + hex_text(a.instrument_id as nat, 4),
            "0x"@ + hex_text(b.instrument_id as nat, 4),
        ),
        (
            "instrument_version"@,
            dec_text(a.instrument_version as nat),
            dec_text(b.instrument_version as nat),
        ),
        ("proto_version"@, dec_text(a.proto_version as nat), dec_text(b.proto_version as nat)),
        ("timestamp_domain_hz"@, dec_text(a.core_clock_hz as nat), dec_text(b.core_clock_hz as nat)),
        ("seed"@, seed_text(a.seed), seed_text(b.seed)),
        ("instrument_header"@, summary_text(a.header_summary), summary_text(b.header_summary)),
        ("tool_rev"@, a.tool_rev, b.tool_rev),
        ("deps"@, a.deps, b.deps),
    ]
}

/// The entries whose two values differ, in order.
pub open spec fn differing(fs: Seq<(Seq<char>, Seq<char>, Seq<char>)>) -> Seq<
    (Seq<char>, Seq<char>, Seq<char>),
>
    decreases fs.len(),
{
    if fs.len() == 0 {
        Seq::empty()
    } else {
        let before = differing(fs.drop_last());
        if fs.last().1 != fs.last().2 {
            before.push(fs.last())
        } else {
            before
        }
    }
}

/// Two records differ in a field.
pub open spec fn records_differ(x: RawRecord, y: RawRecord) -> bool {
    x.tag != y.tag || x.timestamp != y.timestamp || x.payload != y.payload || x.payload_bits
        != y.payload_bits
}

/// The first index from `i` on, below both lengths, where the streams
/// differ; the shorter length where there is none.
pub open spec fn first_difference(a: Seq<RawRecord>, b: Seq<RawRecord>, i: nat) -> nat
    decreases (if a.len() < b.len() { a.len() } else { b.len() }) - i,
{
    let m = if a.len() < b.len() { a.len() } else { b.len() };
    if i >= m {
        m
    } else if records_differ(a[i as int], b[i as int]) {
        i
    } else {
        first_difference(a, b, i + 1)
    }
}

/// What differs at a diverging event.
pub open spec fn event_detail(x: RawRecord, y: RawRecord) -> Seq<char> {
    "tag "@ + dec_text(x.tag as nat) + "/"@ + dec_text(y.tag as nat) + ", t "@ + dec_text(
        x.timestamp as nat,
    ) + "/"@ + dec_text(y.timestamp as nat) + ", payload 0x"@ + hex_text(x.payload as nat, 0)
        + "/0x"@ + hex_text(y.payload as nat, 0)
}

/// Where the event streams first diverge: the first differing event on
/// their common prefix, else, where the lengths differ, the end of the
/// shorter stream.
pub open spec fn first_divergence(a: Seq<RawRecord>, b: Seq<RawRecord>) -> Option<
    (nat, Seq<char>),
> {
    let m = if a.len() < b.len() { a.len() } else { b.len() };
    let i = first_difference(a, b, 0);
    if i < m {
        Some((i, event_detail(a[i as int], b[i as int])))
    } else if a.len() != b.len() {
        Some((m, "event count "@ + dec_text(a.len()) + " vs "@ + dec_text(b.len())))
    } else {
        None
    }
}

/// The diff of two captures.
pub open spec fn diff_model(a: CaptureModel, b: CaptureModel) -> DiffModel {
    DiffModel {
        header: differing(header_fields(a, b)),
        events_a: a.records.len(),
        events_b: b.records.len(),
        first_event: first_divergence(a.records, b.records),
    }
}

} // verus!

verus! {

/// Appends `field` with both values when the values differ.
pub fn push_if_ne(out: &mut Vec<FieldDiff>, field: &str, a: String, b: String)
    ensures
        final(out)@.map_values(|f: FieldDiff| f@) == if a@ != b@ {
            old(out)@.map_values(|f: FieldDiff| f@).push((field@, a@, b@))
        } else {
            old(out)@.map_values(|f: FieldDiff| f@)
        },
{
    if a != b {
        let ghost before = out@.map_values(|f: FieldDiff| f@);
        let fd = FieldDiff { field: field.to_owned(), a, b };
        let ghost v = fd@;
        out.push(fd);
        assert(out@.map_values(|f: FieldDiff| f@) =~= before.push(v));
    }
}

fn dec_string(n: u64) -> (s: String)
    ensures
        s@ == dec_text(n as nat),
{
    let mut s = String::new();
    push_dec_str(&mut s, n);
    s
}

fn seed_string(seed: Option<u32>) -> (s: String)
    ensures
        s@ == seed_text(seed),
{
    match seed {
        Some(x) => {
            let mut s = String::from_str("Some(");
            push_dec_str(&mut s, x as u64);
            s.append(")");
            s
        },
        None => String::from_str("None"),
    }
}

fn summary_string(h: &Option<String>) -> (s: String)
    ensures
        s@ == summary_text(crate::capture::opt_text(*h)),
        forall|x: Option<Seq<char>>| #[trigger] summary_text(x) == s@ ==> x == crate::capture::opt_text(
            *h,
        ),
{
    proof {
        reveal_strlit("Some(");
        reveal_strlit(")");
        reveal_strlit("None");
    }
    match h {
        Some(t) => {
            let mut s = String::from_str("Some(");
            let q = debug_str(t.as_str());
            s.append(q.as_str());
            s.append(")");
            proof {
                assert forall|x: Option<Seq<char>>| #[trigger] summary_text(x) == s@ implies x
                    == crate::capture::opt_text(*h) by {
                    match x {
                        Some(u) => {
                            let su = summary_text(x);
                            assert(debug_quoted(u) =~= su.subrange(5, su.len() - 1));
                            assert(q@ =~= s@.subrange(5, s@.len() - 1));
                        },
                        None => {
                            assert(summary_text(x)[0] != s@[0]);
                        },
                    }
                }
            }
            s
        },
        None => {
            let s = String::from_str("None");
            proof {
                assert forall|x: Option<Seq<char>>| #[trigger] summary_text(x) == s@ implies x
                    == crate::capture::opt_text(*h) by {
                    if x is Some {
                        assert(summary_text(x)[0] != s@[0]);
                    }
                }
            }
            s
        },
    }
}

proof fn lemma_differing_step(fs: Seq<(Seq<char>, Seq<char>, Seq<char>)>, k: int)
    requires
        0 <= k < fs.len(),
    ensures
        differing(fs.take(k + 1)) == if fs[k].1 != fs[k].2 {
            differing(fs.take(k)).push(fs[k])
        } else {
            differing(fs.take(k))
        },
{
    assert(fs.take(k + 1).drop_last() =~= fs.take(k));
    assert(fs.take(k + 1).last() == fs[k]);
}

fn header_diff(a: &Capture, b: &Capture) -> (out: Vec<FieldDiff>)
    ensures
        out@.map_values(|f: FieldDiff| f@) == differing(header_fields(a@, b@)),
        summary_text(a@.header_summary) == summary_text(b@.header_summary) ==> a@.header_summary
            == b@.header_summary,
{
    let ghost hf = header_fields(a@, b@);
    let mut out: Vec<FieldDiff> = Vec::new();
    proof {
        assert(out@.map_values(|f: FieldDiff| f@) =~= differing(hf.take(0)));
    }
    push_if_ne(&mut out, "run_mode", String::from_str(a.run_mode.as_str()), String::from_str(b.run_mode.as_str()));
    proof { lemma_differing_step(hf, 0); }
    let mut ia = String::from_str("0x");
    push_hex_str(&mut ia, a.instrument_id as u128, 4);
    let mut ib = String::from_str("0x");
    push_hex_str(&mut ib, b.instrument_id as u128, 4);
    push_if_ne(&mut out, "instrument_id", ia, ib);
    proof { lemma_differing_step(hf, 1); }
    push_if_ne(&mut out, "instrument_version", dec_string(a.instrument_version as u64), dec_string(b.instrument_version as u64));
    proof { lemma_differing_step(hf, 2); }
    push_if_ne(&mut out, "proto_version", dec_string(a.proto_version as u64), dec_string(b.proto_version as u64));
    proof { lemma_differing_step(hf, 3); }
    push_if_ne(&mut out, "timestamp_domain_hz", dec_string(a.core_clock_hz as u64), dec_string(b.core_clock_hz as u64));
    proof { lemma_differing_step(hf, 4); }
    push_if_ne(&mut out, "seed", seed_string(a.seed), seed_string(b.seed));
    proof { lemma_differing_step(hf, 5); }
    let sa = summary_string(&a.header_summary);
    let sb = summary_string(&b.header_summary);
    proof {
        if summary_text(a@.header_summary) == summary_text(b@.header_summary) {
            assert(summary_text(b@.header_summary) == sa@);
        }
    }
    push_if_ne(&mut out, "instrument_header", sa, sb);
    proof { lemma_differing_step(hf, 6); }
    push_if_ne(&mut out, "tool_rev", a.tool_rev.clone(), b.tool_rev.clone());
    proof { lemma_differing_step(hf, 7); }
    push_if_ne(&mut out, "deps", a.deps.clone(), b.deps.clone());
    proof {
        lemma_differing_step(hf, 8);
        assert(hf.take(9) =~= hf);
    }
    out
}

fn event_detail_string(x: RawRecord, y: RawRecord) -> (s: String)
    ensures
        s@ == event_detail(x, y),
{
    let mut s = String::from_str("tag ");
    push_dec_str(&mut s, x.tag as u64);
    s.append("/");
    push_dec_str(&mut s, y.tag as u64);
    s.append(", t ");
    push_dec_str(&mut s, x.timestamp as u64);
    s.append("/");
    push_dec_str(&mut s, y.timestamp as u64);
    s.append(", payload 0x");
    push_hex_str(&mut s, x.payload, 0);
    s.append("/0x");
    push_hex_str(&mut s, y.payload, 0);
    s
}

fn first_event(a: &Vec<RawRecord>, b: &Vec<RawRecord>) -> (r: Option<EventDivergence>)
    ensures
        match r {
            Some(e) => first_divergence(a@, b@) == Some((e.index as nat, e.detail@)),
            None => first_divergence(a@, b@) is None,
        },
{
    let m = if a.len() < b.len() { a.len() } else { b.len() };
    let mut i: usize = 0;
    while i < m
        invariant
            i <= m,
            m == if a@.len() < b@.len() { a@.len() } else { b@.len() },
            first_difference(a@, b@, 0) == first_difference(a@, b@, i as nat),
        decreases m - i,
    {
        let x = a[i];
        let y = b[i];
        if x.tag != y.tag || x.timestamp != y.timestamp || x.payload != y.payload || x.payload_bits
            != y.payload_bits {
            return Some(EventDivergence { index: i, detail: event_detail_string(x, y) });
        }
        i = i + 1;
    }
    if a.len() != b.len() {
        let mut s = String::from_str("event count ");
        push_dec_str(&mut s, a.len() as u64);
        s.append(" vs ");
        push_dec_str(&mut s, b.len() as u64);
        Some(EventDivergence { index: m, detail: s })
    } else {
        None
    }
}

/// The captures agree on every field a diff compares: the run mode, the
/// instrument's id, version and proto version, the timestamp domain, the
/// seed, the header summary, the tool revision, the dependency stack, and
/// each record's tag, timestamp, payload and payload width. The dirty flag
/// and the schema are not compared.
pub open spec fn captures_agree(a: CaptureModel, b: CaptureModel) -> bool {
    &&& a.run_mode == b.run_mode
    &&& a.instrument_id == b.instrument_id
    &&& a.instrument_version == b.instrument_version
    &&& a.proto_version == b.proto_version
    &&& a.core_clock_hz == b.core_clock_hz
    &&& a.seed == b.seed
    &&& a.header_summary == b.header_summary
    &&& a.tool_rev == b.tool_rev
    &&& a.deps == b.deps
    &&& a.records == b.records
}

/// Diffs two already-read captures. The diff is empty exactly when the
/// captures agree on every compared field and event.
pub fn diff(a: &Capture, b: &Capture) -> (d: Diff)
    ensures
        d@ == diff_model(a@, b@),
        d@.is_empty() <==> captures_agree(a@, b@),
{
    let header = header_diff(a, b);
    proof {
        if captures_agree(a@, b@) {
            laws::lemma_agreement_diffs_empty(a@, b@);
        }
        if diff_model(a@, b@).is_empty() {
            laws::lemma_empty_diff_agrees(a@, b@);
        }
    }
    let first_event = first_event(&a.records, &b.records);
    Diff { header, events_a: a.records.len(), events_b: b.records.len(), first_event }
}

} // verus!

verus! {

/// Reads both sides, inheriting the read refusals (side A's first), and
/// diffs them.
pub fn diff_bytes(a: &[u8], b: &[u8]) -> (r: Result<Diff, HostError>)
    ensures
        r is Ok <==> crate::capture::holds_capture(a@) && crate::capture::holds_capture(b@),
        r matches Ok(d) ==> d@ == diff_model(
            crate::capture::capture_in(a@),
            crate::capture::capture_in(b@),
        ),
        r matches Ok(d) ==> (d@.is_empty() <==> captures_agree(
            crate::capture::capture_in(a@),
            crate::capture::capture_in(b@),
        )),
        !crate::capture::holds_capture(a@) ==> (r matches Err(e)
            && crate::capture::is_read_refusal(e, a@)),
        crate::capture::holds_capture(a@) && !crate::capture::holds_capture(b@) ==> (r matches Err(
            e,
        ) && crate::capture::is_read_refusal(e, b@)),
{
    let ca = match Capture::read(a) {
        Ok(c) => c,
        Err(e) => return Err(e),
    };
    let cb = match Capture::read(b) {
        Ok(c) => c,
        Err(e) => return Err(e),
    };
    proof {
        let xa = crate::capture::capture_in(a@);
        let xb = crate::capture::capture_in(b@);
        assert(crate::capture::read::capture_ok(ca@) && crate::capture::write::capture_bytes(ca@) == a@);
        assert(crate::capture::read::capture_ok(cb@) && crate::capture::write::capture_bytes(cb@) == b@);
        assert(crate::capture::read::capture_ok(xa) && crate::capture::write::capture_bytes(xa) == a@);
        assert(crate::capture::read::capture_ok(xb) && crate::capture::write::capture_bytes(xb) == b@);
    }
    Ok(diff(&ca, &cb))
}

/// The render of a diff: `IDENTICAL` for an empty one, else `DIVERGENT`
/// with each differing header field, the event counts, and the first event
/// divergence.
pub open spec fn render_text(d: DiffModel) -> Seq<char> {
    if d.is_empty() {
        "diff: IDENTICAL (headers and events match)"@
    } else {
        "diff: DIVERGENT"@ + header_text(d.header) + "\n  events: "@ + dec_text(d.events_a)
            + " vs "@ + dec_text(d.events_b) + match d.first_event {
            Some((i, detail)) => "\n  first event divergence at index "@ + dec_text(i) + ": "@
                + detail,
            None => Seq::empty(),
        }
    }
}

/// The lines of the differing header fields.
pub open spec fn header_text(h: Seq<(Seq<char>, Seq<char>, Seq<char>)>) -> Seq<char>
    decreases h.len(),
{
    if h.len() == 0 {
        Seq::empty()
    } else {
        header_text(h.drop_last()) + "\n  header "@ + h.last().0 + ": "@ + h.last().1 + " != "@
            + h.last().2
    }
}

/// Renders a diff for the line-oriented output. Empty diffs say so.
pub fn render(d: &Diff) -> (s: String)
    ensures
        s@ == render_text(d@),
{
    if d.is_empty() {
        return String::from_str("diff: IDENTICAL (headers and events match)");
    }
    let mut s = String::from_str("diff: DIVERGENT");
    let ghost hv = d@.header;
    let mut i: usize = 0;
    while i < d.header.len()
        invariant
            i <= d.header@.len(),
            hv == d.header@.map_values(|f: FieldDiff| f@),
            s@ == "diff: DIVERGENT"@ + header_text(hv.take(i as int)),
        decreases d.header.len() - i,
    {
        let f = &d.header[i];
        s.append("\n  header ");
        s.append(f.field.as_str());
        s.append(": ");
        s.append(f.a.as_str());
        s.append(" != ");
        s.append(f.b.as_str());
        assert(hv.take(i + 1).drop_last() =~= hv.take(i as int));
        i = i + 1;
    }
    assert(hv.take(d.header@.len() as int) =~= hv);
    s.append("\n  events: ");
    push_dec_str(&mut s, d.events_a as u64);
    s.append(" vs ");
    push_dec_str(&mut s, d.events_b as u64);
    if let Some(e) = &d.first_event {
        s.append("\n  first event divergence at index ");
        push_dec_str(&mut s, e.index as u64);
        s.append(": ");
        s.append(e.detail.as_str());
    }
    assert(s@ =~= render_text(d@));
    s
}

} // verus!
