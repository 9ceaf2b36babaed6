//! The O1 observatory's decoding, controls and record packing, in
//! host-generic terms: an instrument's decoder is keyed off IDENT's
//! `instrument_id`, and an unknown instrument renders RAW and UNDECODED,
//! never a guess.
use vstd::prelude::*;
use crate::capture::{Encoding, FieldDef, RawRecord, RecordDef, Schema};

pub mod laws;

verus! {

/// The O1 event record tag inside the native record payload (4-bit).
pub const O1_EVENT_TAG: u8 = 1;

/// The record format version the O1 schema is written in.
pub const TRACE_FORMAT_VERSION: u16 = 1;

/// The number of payload bits an O1 event packs into.
pub const O1_PAYLOAD_BITS: u16 = 96;

/// A ring overflow policy, in host-generic terms (the decoder maps it to
/// the instrument's own CTRL encoding).
#[derive(Debug, Clone, Copy, PartialEq, Eq)]
pub enum Policy {
    /// Refuse further events once full.
    Stop,
    /// Overwrite the oldest once full.
    Wrap,
}

/// A CTRL action one can ask of any instrument in host-generic terms. The
/// decoder that owns the instrument maps it to that instrument's CTRL
/// word(s).
#[derive(Debug, Clone, PartialEq, Eq)]
pub enum Ctrl {
    /// Begin recording.
    Arm,
    /// Stop recording.
    Disarm,
    /// Reset the ring, counters, seq, and sticky flags.
    Clear,
    /// Set the overflow policy.
    Policy(Policy),
    /// Set the event filter: a per-kind enable mask and an inclusive address
    /// range.
    Filter {
        /// The per-kind enable bitmask.
        kind_mask: u16,
        /// Inclusive low address bound.
        addr_lo: u32,
        /// Inclusive high address bound.
        addr_hi: u32,
    },
}

/// The O1 CTRL word's command bits.
#[derive(Debug, Clone, Copy, PartialEq, Eq)]
pub enum CtrlBit {
    Arm,
    Disarm,
    Clear,
    PolicySet,
    PolicyVal,
    FiltMask,
    FiltLo,
    FiltHi,
}

/// One O1 CTRL write: the command bits it sets, the value it carries, and
/// the nonce bit it carries so that the fabric sees it as an edge.
#[derive(Debug, Clone, PartialEq, Eq)]
pub struct CtrlWrite {
    pub bits: Vec<CtrlBit>,
    pub value: u32,
    pub nonce: bool,
}

/// The O1 CTRL writes that effect an action, in write order, as the bits
/// each sets and the value each carries.
pub open spec fn ctrl_plan_spec(action: Ctrl) -> Seq<(Seq<CtrlBit>, u32)> {
    match action {
        Ctrl::Arm => seq![(seq![CtrlBit::Arm], 0u32)],
        Ctrl::Disarm => seq![(seq![CtrlBit::Disarm], 0u32)],
        Ctrl::Clear => seq![(seq![CtrlBit::Clear], 0u32)],
        Ctrl::Policy(Policy::Stop) => seq![(seq![CtrlBit::PolicySet], 0u32)],
        Ctrl::Policy(Policy::Wrap) => seq![(seq![CtrlBit::PolicySet, CtrlBit::PolicyVal], 0u32)],
        Ctrl::Filter { kind_mask, addr_lo, addr_hi } => seq![
            (seq![CtrlBit::FiltMask], kind_mask as u32),
            (seq![CtrlBit::FiltLo], addr_lo),
            (seq![CtrlBit::FiltHi], addr_hi),
        ],
    }
}

/// The nonce the `i`-th of consecutive writes carries, the first carrying
/// `nonce`: they alternate.
pub open spec fn nonce_at(nonce: bool, i: int) -> bool {
    if i % 2 == 0 {
        nonce
    } else {
        !nonce
    }
}

impl View for CtrlWrite {
    type V = (Seq<CtrlBit>, u32, bool);

    open spec fn view(&self) -> (Seq<CtrlBit>, u32, bool) {
        (self.bits@, self.value, self.nonce)
    }
}

fn bits1(b: CtrlBit) -> (v: Vec<CtrlBit>)
    ensures
        v@ == seq![b],
{
    let mut v = Vec::new();
    v.push(b);
    assert(v@ =~= seq![b]);
    v
}

/// The bits and values of the O1 CTRL writes that effect `action`.
fn plan(action: &Ctrl) -> (w: Vec<(Vec<CtrlBit>, u32)>)
    ensures
        w@.len() == ctrl_plan_spec(*action).len(),
        forall|i: int|
            0 <= i < w@.len() ==> (#[trigger] w@[i]).0@ == ctrl_plan_spec(*action)[i].0 && w@[i].1
                == ctrl_plan_spec(*action)[i].1,
{
    let mut w: Vec<(Vec<CtrlBit>, u32)> = Vec::new();
    match action {
        Ctrl::Arm => w.push((bits1(CtrlBit::Arm), 0)),
        Ctrl::Disarm => w.push((bits1(CtrlBit::Disarm), 0)),
        Ctrl::Clear => w.push((bits1(CtrlBit::Clear), 0)),
        Ctrl::Policy(Policy::Stop) => w.push((bits1(CtrlBit::PolicySet), 0)),
        Ctrl::Policy(Policy::Wrap) => {
            let mut v = bits1(CtrlBit::PolicySet);
            v.push(CtrlBit::PolicyVal);
            assert(v@ =~= seq![CtrlBit::PolicySet, CtrlBit::PolicyVal]);
            w.push((v, 0));
        },
        Ctrl::Filter { kind_mask, addr_lo, addr_hi } => {
            w.push((bits1(CtrlBit::FiltMask), *kind_mask as u32));
            w.push((bits1(CtrlBit::FiltLo), *addr_lo));
            w.push((bits1(CtrlBit::FiltHi), *addr_hi));
        },
    }
    w
}

/// The command bits an action may set: its own level bit for arm, disarm
/// and clear, the two policy bits for a policy, the three filter bits for
/// a filter.
pub open spec fn bit_of_action(action: Ctrl, bit: CtrlBit) -> bool {
    match action {
        Ctrl::Arm => bit == CtrlBit::Arm,
        Ctrl::Disarm => bit == CtrlBit::Disarm,
        Ctrl::Clear => bit == CtrlBit::Clear,
        Ctrl::Policy(_) => bit == CtrlBit::PolicySet || bit == CtrlBit::PolicyVal,
        Ctrl::Filter { .. } => bit == CtrlBit::FiltMask || bit == CtrlBit::FiltLo || bit
            == CtrlBit::FiltHi,
    }
}

/// Each CTRL action's writes set only the bits that belong to it, and set
/// them as the action asks: arm, disarm and clear are one write of their
/// level bit carrying 0; a policy is one write that sets the policy and
/// sets its value bit exactly for WRAP; a filter is three writes, the mask,
/// the low bound and the high bound, each carrying its value.
pub proof fn lemma_ctrl_bits_name_the_action(action: Ctrl)
    ensures
        ctrl_plan_spec(action).len() > 0,
        forall|i: int, j: int|
            0 <= i < ctrl_plan_spec(action).len() && 0 <= j < ctrl_plan_spec(action)[i].0.len()
                ==> bit_of_action(action, #[trigger] ctrl_plan_spec(action)[i].0[j]),
        forall|i: int|
            0 <= i < ctrl_plan_spec(action).len() ==> (#[trigger] ctrl_plan_spec(action)[i]).0.len()
                > 0,
        action is Arm ==> ctrl_plan_spec(action).len() == 1 && ctrl_plan_spec(action)[0].0.contains(
            CtrlBit::Arm,
        ) && ctrl_plan_spec(action)[0].1 == 0,
        action is Disarm ==> ctrl_plan_spec(action).len() == 1 && ctrl_plan_spec(
            action,
        )[0].0.contains(CtrlBit::Disarm) && ctrl_plan_spec(action)[0].1 == 0,
        action is Clear ==> ctrl_plan_spec(action).len() == 1 && ctrl_plan_spec(action)[0].0.contains(
            CtrlBit::Clear,
        ) && ctrl_plan_spec(action)[0].1 == 0,
        action matches Ctrl::Policy(p) ==> ctrl_plan_spec(action).len() == 1 && ctrl_plan_spec(
            action,
        )[0].0.contains(CtrlBit::PolicySet) && (ctrl_plan_spec(action)[0].0.contains(
            CtrlBit::PolicyVal,
        ) <==> p == Policy::Wrap),
        action matches Ctrl::Filter { kind_mask, addr_lo, addr_hi } ==> ctrl_plan_spec(action).len()
            == 3 && ctrl_plan_spec(action)[0].0.contains(CtrlBit::FiltMask) && ctrl_plan_spec(
            action,
        )[0].1 == kind_mask as u32 && ctrl_plan_spec(action)[1].0.contains(CtrlBit::FiltLo)
            && ctrl_plan_spec(action)[1].1 == addr_lo && ctrl_plan_spec(action)[2].0.contains(
            CtrlBit::FiltHi,
        ) && ctrl_plan_spec(action)[2].1 == addr_hi,
{
    let pl = ctrl_plan_spec(action);
    match action {
        Ctrl::Arm => {
            assert(pl[0].0[0] == CtrlBit::Arm);
        },
        Ctrl::Disarm => {
            assert(pl[0].0[0] == CtrlBit::Disarm);
        },
        Ctrl::Clear => {
            assert(pl[0].0[0] == CtrlBit::Clear);
        },
        Ctrl::Policy(p) => {
            assert(pl[0].0[0] == CtrlBit::PolicySet);
            if p == Policy::Wrap {
                assert(pl[0].0[1] == CtrlBit::PolicyVal);
            } else {
                assert(pl[0].0 =~= seq![CtrlBit::PolicySet]);
            }
        },
        Ctrl::Filter { kind_mask, addr_lo, addr_hi } => {
            assert(pl[0].0[0] == CtrlBit::FiltMask);
            assert(pl[1].0[0] == CtrlBit::FiltLo);
            assert(pl[2].0[0] == CtrlBit::FiltHi);
        },
    }
}

impl O1Decoder {
    /// The O1 CTRL writes that effect `action`, in write order (one write
    /// per level bit, and three, mask, low and high, for a filter), and the
    /// nonce to carry into the next write. Consecutive writes carry
    /// alternating nonces, the first `nonce`, so that each is an edge the
    /// fabric detects (CTRL is level-latched, edge-triggered).
    pub fn ctrl_words(&self, action: &Ctrl, nonce: bool) -> (r: (Vec<CtrlWrite>, bool))
        ensures
            r.0@.len() == ctrl_plan_spec(*action).len(),
            forall|i: int|
                0 <= i < r.0@.len() ==> (#[trigger] r.0@[i])@ == (
                    ctrl_plan_spec(*action)[i].0,
                    ctrl_plan_spec(*action)[i].1,
                    nonce_at(nonce, i),
                ),
            r.1 == nonce_at(nonce, r.0@.len() as int),
            r.0@.len() > 0 ==> r.1 != r.0@.last().nonce,
    {
        let steps = plan(action);
        let mut out: Vec<CtrlWrite> = Vec::new();
        let mut n = nonce;
        let mut i: usize = 0;
        while i < steps.len()
            invariant
                i <= steps@.len(),
                steps@.len() == ctrl_plan_spec(*action).len(),
                forall|k: int|
                    0 <= k < steps@.len() ==> (#[trigger] steps@[k]).0@ == ctrl_plan_spec(
                        *action,
                    )[k].0 && steps@[k].1 == ctrl_plan_spec(*action)[k].1,
                out@.len() == i,
                forall|k: int|
                    0 <= k < i ==> (#[trigger] out@[k])@ == (
                        ctrl_plan_spec(*action)[k].0,
                        ctrl_plan_spec(*action)[k].1,
                        nonce_at(nonce, k),
                    ),
                n == nonce_at(nonce, i as int),
            decreases steps.len() - i,
        {
            let bits = steps[i].0.clone();
            assert(bits@ == steps@[i as int].0@);
            out.push(CtrlWrite { bits, value: steps[i].1, nonce: n });
            n = !n;
            i = i + 1;
        }
        (out, n)
    }
}

} // verus!

verus! {

/// The O1 observatory decoder: the one place O1 is decoded.
#[derive(Debug, Clone, Copy)]
pub struct O1Decoder;

impl O1Decoder {
    /// The IDENT `instrument_id` this decoder claims.
    pub fn instrument_id(&self) -> (id: u16)
        ensures
            id == 0x0001,
    {
        0x0001
    }

    /// The name for the render banner.
    pub fn name(&self) -> (s: &'static str)
        ensures
            s@ == "O1 observatory"@,
    {
        "O1 observatory"
    }
}

/// One O1 ring event, as the instrument's event decoder gives its fields.
#[derive(Debug, Clone, Copy, PartialEq, Eq)]
pub struct O1Event {
    pub timestamp: u32,
    pub addr: u32,
    pub data: u32,
    pub kind: u8,
    pub flags: u8,
    pub seq: u32,
    /// The ring slot held no event.
    pub empty: bool,
}

/// An O1 event packed into the 96-bit payload the O1 schema describes:
/// `addr` at bit 0, `data` at 32, the 4-bit `kind` at 64, `flags` at 68 and
/// the 20-bit `seq` at 76.
pub open spec fn packed(e: O1Event) -> u128 {
    (e.addr as u128) | ((e.data as u128) << 32u128) | (((e.kind as u128) & 0xFu128) << 64u128) | ((
    e.flags as u128) << 68u128) | (((e.seq as u128) & 0xF_FFFFu128) << 76u128)
}

/// Packs an O1 event into the 96-bit payload the O1 schema describes.
pub fn pack_o1_event(e: &O1Event) -> (p: u128)
    ensures
        p == packed(*e),
        p >> 96u128 == 0,
        p & 0xFFFF_FFFFu128 == e.addr as u128,
        (p >> 32u128) & 0xFFFF_FFFFu128 == e.data as u128,
        (p >> 64u128) & 0xFu128 == (e.kind as u128) & 0xFu128,
        (p >> 68u128) & 0xFFu128 == e.flags as u128,
        (p >> 76u128) & 0xF_FFFFu128 == (e.seq as u128) & 0xF_FFFFu128,
{
    let a = e.addr as u128;
    let d = e.data as u128;
    let k = e.kind as u128;
    let f = e.flags as u128;
    let s = e.seq as u128;
    let p = a | (d << 32u128) | ((k & 0xFu128) << 64u128) | (f << 68u128) | ((s & 0xF_FFFFu128)
        << 76u128);
    assert(a <= 0xFFFF_FFFF && d <= 0xFFFF_FFFF && f <= 0xFF ==> {
        let q = a | (d << 32u128) | ((k & 0xFu128) << 64u128) | (f << 68u128) | ((s & 0xF_FFFFu128)
            << 76u128);
        &&& q >> 96u128 == 0
        &&& q & 0xFFFF_FFFFu128 == a
        &&& (q >> 32u128) & 0xFFFF_FFFFu128 == d
        &&& (q >> 64u128) & 0xFu128 == k & 0xFu128
        &&& (q >> 68u128) & 0xFFu128 == f
        &&& (q >> 76u128) & 0xF_FFFFu128 == s & 0xF_FFFFu128
    }) by (bit_vector);
    p
}

/// The native record of an O1 event.
pub open spec fn o1_record(e: O1Event) -> RawRecord {
    RawRecord {
        tag: O1_EVENT_TAG,
        timestamp: e.timestamp,
        payload: packed(e),
        payload_bits: O1_PAYLOAD_BITS,
    }
}

/// The records of the events that are not empty, in order.
pub open spec fn o1_records_spec(events: Seq<O1Event>) -> Seq<RawRecord>
    decreases events.len(),
{
    if events.len() == 0 {
        Seq::empty()
    } else {
        let before = o1_records_spec(events.drop_last());
        if events.last().empty {
            before
        } else {
            before.push(o1_record(events.last()))
        }
    }
}

/// The native records of a RING region: the events of this capture alone
/// (the first `valid` ring slots, as the instrument's header counts them,
/// never stale words that a clear left in later slots), those that are not
/// empty, each packed into the O1 schema's layout.
pub fn o1_records(events: &[O1Event], valid: usize) -> (r: Vec<RawRecord>)
    ensures
        r@ == o1_records_spec(events@.take(
            if valid < events@.len() { valid as int } else { events@.len() as int },
        )),
{
    let n = if valid < events.len() { valid } else { events.len() };
    let mut out: Vec<RawRecord> = Vec::new();
    let mut i: usize = 0;
    while i < n
        invariant
            i <= n <= events@.len(),
            out@ == o1_records_spec(events@.take(i as int)),
        decreases n - i,
    {
        let e = events[i];
        assert(events@.take(i + 1).drop_last() =~= events@.take(i as int));
        if !e.empty {
            let p = pack_o1_event(&e);
            out.push(
                RawRecord {
                    tag: O1_EVENT_TAG,
                    timestamp: e.timestamp,
                    payload: p,
                    payload_bits: O1_PAYLOAD_BITS,
                },
            );
        }
        i = i + 1;
    }
    out
}

} // verus!

verus! {

/// A field of the O1 event layout.
pub open spec fn o1_field(name: Seq<char>, offset: u16, width: u16, encoding: Encoding) -> crate::capture::FieldModel {
    crate::capture::FieldModel { name, offset, width, encoding }
}

/// The O1 event schema: one record kind, `event`, whose fields pack an O1
/// event into 96 payload bits. Its hash is left 0 for the trace format's
/// own hashing to fill in.
pub open spec fn o1_schema_model(core_clock_hz: u32) -> crate::capture::SchemaModel {
    crate::capture::SchemaModel {
        format_version: TRACE_FORMAT_VERSION,
        schema_version: 1,
        schema_hash: 0,
        core_clock_hz,
        records: seq![
            crate::capture::RecordModel {
                tag: O1_EVENT_TAG,
                name: "event"@,
                fields: seq![
                    o1_field("addr"@, 0, 32, Encoding::Hex),
                    o1_field("data"@, 32, 32, Encoding::Hex),
                    o1_field("kind"@, 64, 4, Encoding::Enum),
                    o1_field("flags"@, 68, 8, Encoding::U),
                    o1_field("seq"@, 76, 20, Encoding::U),
                ],
            },
        ],
    }
}

fn field(name: &str, offset: u16, width: u16, encoding: Encoding) -> (f: FieldDef)
    ensures
        f@ == o1_field(name@, offset, width, encoding),
{
    FieldDef { name: name.to_owned(), offset, width, encoding }
}

/// The O1 event schema, defined once, here, so that an O1 capture carries a
/// self-describing record layout and a downstream consumer decodes it with
/// no O1-specific code.
pub fn o1_event_schema(core_clock_hz: u32) -> (s: Schema)
    ensures
        s@ == o1_schema_model(core_clock_hz),
{
    let mut fields: Vec<FieldDef> = Vec::new();
    fields.push(field("addr", 0, 32, Encoding::Hex));
    fields.push(field("data", 32, 32, Encoding::Hex));
    fields.push(field("kind", 64, 4, Encoding::Enum));
    fields.push(field("flags", 68, 8, Encoding::U));
    fields.push(field("seq", 76, 20, Encoding::U));
    let rec = RecordDef { tag: O1_EVENT_TAG, name: "event".to_owned(), fields };
    let mut records: Vec<RecordDef> = Vec::new();
    records.push(rec);
    let s = Schema {
        format_version: TRACE_FORMAT_VERSION,
        schema_version: 1,
        schema_hash: 0,
        core_clock_hz,
        records,
    };
    assert(s@.records[0].fields =~= o1_schema_model(core_clock_hz).records[0].fields);
    assert(s@.records =~= o1_schema_model(core_clock_hz).records);
    s
}

} // verus!

verus! {

use crate::text::{ascii_chars, dec_digits, hex_digits, pad_left, pad_right};
use crate::render::{flag_text, push_flag};

/// The number of empty events.
pub open spec fn empty_count(events: Seq<O1Event>) -> nat
    decreases events.len(),
{
    if events.len() == 0 {
        0
    } else {
        empty_count(events.drop_last()) + if events.last().empty { 1nat } else { 0nat }
    }
}

/// The number of words that are not zero.
pub open spec fn nonzero_count(words: Seq<u32>) -> nat
    decreases words.len(),
{
    if words.len() == 0 {
        0
    } else {
        nonzero_count(words.drop_last()) + if words.last() != 0 { 1nat } else { 0nat }
    }
}

/// One event line of a RING render.
pub open spec fn ring_event_line(e: O1Event, kind_name: Seq<char>) -> Seq<char> {
    "\n  t="@ + ascii_chars(pad_left(dec_digits(e.timestamp as nat), 10)) + " "@ + pad_right(
        kind_name,
        12,
    ) + " addr=0x"@ + ascii_chars(hex_digits(e.addr as nat, 8)) + " data=0x"@ + ascii_chars(
        hex_digits(e.data as nat, 8),
    ) + " seq="@ + ascii_chars(dec_digits(e.seq as nat))
}

/// The lines of the events that are not empty.
pub open spec fn ring_event_lines(events: Seq<O1Event>, names: Seq<Seq<char>>) -> Seq<char>
    decreases events.len(),
{
    if events.len() == 0 {
        Seq::empty()
    } else {
        let before = ring_event_lines(events.drop_last(), names.take(events.len() - 1));
        if events.last().empty {
            before
        } else {
            before + ring_event_line(events.last(), names[events.len() - 1])
        }
    }
}

/// The render of a RING region: the event counts, then one line per event
/// that is not empty.
pub open spec fn ring_text(events: Seq<O1Event>, names: Seq<Seq<char>>, words: Seq<u32>) -> Seq<char> {
    ascii_chars(dec_digits(events.len())) + " events, "@ + ascii_chars(dec_digits(empty_count(events)))
        + " empty, non-zero words "@ + ascii_chars(dec_digits(nonzero_count(words)))
        + ring_event_lines(events, names)
}

fn count_nonzero(words: &[u32]) -> (n: usize)
    ensures
        n == nonzero_count(words@),
{
    let mut n: usize = 0;
    let mut i: usize = 0;
    while i < words.len()
        invariant
            i <= words@.len(),
            n == nonzero_count(words@.take(i as int)),
            n <= i,
        decreases words.len() - i,
    {
        assert(words@.take(i + 1).drop_last() =~= words@.take(i as int));
        if words[i] != 0 {
            n = n + 1;
        }
        i = i + 1;
    }
    assert(words@.take(words@.len() as int) =~= words@);
    n
}

fn count_empty(events: &[O1Event]) -> (n: usize)
    ensures
        n == empty_count(events@),
{
    let mut n: usize = 0;
    let mut i: usize = 0;
    while i < events.len()
        invariant
            i <= events@.len(),
            n == empty_count(events@.take(i as int)),
            n <= i,
        decreases events.len() - i,
    {
        assert(events@.take(i + 1).drop_last() =~= events@.take(i as int));
        if events[i].empty {
            n = n + 1;
        }
        i = i + 1;
    }
    assert(events@.take(events@.len() as int) =~= events@);
    n
}

/// Appends `t`, then spaces up to `width` characters.
fn push_padded_right(s: &mut String, t: &str, width: usize)
    ensures
        final(s)@ == old(s)@ + pad_right(t@, width as nat),
{
    let cs = crate::text::chars_of(t);
    s.append(t);
    if cs.len() < width {
        let mut k = cs.len();
        let ghost mid = s@;
        while k < width
            invariant
                cs@.len() <= k <= width,
                s@ == mid + Seq::new((k - cs@.len()) as nat, |i: int| ' '),
            decreases width - k,
        {
            crate::text::push_char(s, ' ');
            k = k + 1;
            assert(s@ =~= mid + Seq::new((k - cs@.len()) as nat, |i: int| ' '));
        }
    }
    assert(final(s)@ =~= old(s)@ + pad_right(t@, width as nat));
}

fn push_ring_event_line(s: &mut String, e: &O1Event, kind_name: &str)
    ensures
        final(s)@ == old(s)@ + ring_event_line(*e, kind_name@),
{
    s.append("\n  t=");
    let mut ts: Vec<u8> = Vec::new();
    crate::text::push_dec_padded(&mut ts, e.timestamp as u64, 10);
    proof {
        crate::text::lemma_dec_digits_all(e.timestamp as nat);
        assert(ts@ =~= pad_left(dec_digits(e.timestamp as nat), 10));
        assert forall|k: int| 0 <= k < ts@.len() implies ts@[k] < 128 by {
            if dec_digits(e.timestamp as nat).len() < 10 {
                let pad = (10 - dec_digits(e.timestamp as nat).len()) as int;
                if k >= pad {
                    assert(ts@[k] == dec_digits(e.timestamp as nat)[k - pad]);
                }
            }
        }
    }
    crate::text::push_ascii(s, &ts);
    s.append(" ");
    push_padded_right(s, kind_name, 12);
    s.append(" addr=0x");
    crate::text::push_hex_str(s, e.addr as u128, 8);
    s.append(" data=0x");
    crate::text::push_hex_str(s, e.data as u128, 8);
    s.append(" seq=");
    crate::text::push_dec_str(s, e.seq as u64);
}

/// Renders a RING region's events: how many, how many empty, how many
/// non-zero words, then each event that is not empty with its kind's name.
pub fn render_ring(events: &[O1Event], kind_names: &Vec<String>, words: &[u32]) -> (s: String)
    requires
        kind_names@.len() == events@.len(),
    ensures
        s@ == ring_text(events@, kind_names@.map_values(|k: String| k@), words@),
{
    let ghost names = kind_names@.map_values(|k: String| k@);
    let mut s = String::new();
    crate::text::push_dec_str(&mut s, events.len() as u64);
    s.append(" events, ");
    let ne = count_empty(events);
    crate::text::push_dec_str(&mut s, ne as u64);
    s.append(" empty, non-zero words ");
    let nz = count_nonzero(words);
    crate::text::push_dec_str(&mut s, nz as u64);
    let ghost head = s@;
    let mut i: usize = 0;
    while i < events.len()
        invariant
            i <= events@.len(),
            kind_names@.len() == events@.len(),
            names == kind_names@.map_values(|k: String| k@),
            s@ == head + ring_event_lines(events@.take(i as int), names.take(i as int)),
        decreases events.len() - i,
    {
        assert(events@.take(i + 1).drop_last() =~= events@.take(i as int));
        assert(names.take(i + 1).take(i as int) =~= names.take(i as int));
        assert(names.take(i + 1)[i as int] == kind_names@[i as int]@);
        if !events[i].empty {
            push_ring_event_line(&mut s, &events[i], kind_names[i].as_str());
        }
        i = i + 1;
    }
    assert(events@.take(events@.len() as int) =~= events@);
    assert(names.take(events@.len() as int) =~= names);
    s
}

/// An O1 STATUS word, decoded.
#[derive(Debug, Clone, Copy, PartialEq, Eq)]
pub struct O1Status {
    pub armed: bool,
    pub overflowed: bool,
    pub wrapped_ever: bool,
    pub ring_full: bool,
    pub policy_wrap: bool,
    pub heartbeat: u32,
}

/// The STATUS line: each flag as 0 or 1, the policy by name, the
/// heartbeat; a short read where the status chunk is missing.
pub open spec fn status_text(st: Option<O1Status>) -> Seq<char> {
    match st {
        None => "status: short read"@,
        Some(s) => "armed="@ + flag_text(s.armed) + " overflowed="@ + flag_text(s.overflowed)
            + " wrapped_ever="@ + flag_text(s.wrapped_ever) + " ring_full="@ + flag_text(
            s.ring_full,
        ) + " policy="@ + (if s.policy_wrap { "WRAP"@ } else { "STOP"@ }) + " heartbeat="@
            + ascii_chars(dec_digits(s.heartbeat as nat)),
    }
}

/// Renders the instrument STATUS.
pub fn render_status(st: Option<O1Status>) -> (s: String)
    ensures
        s@ == status_text(st),
{
    match st {
        None => String::from_str("status: short read"),
        Some(x) => {
            let mut s = String::from_str("armed=");
            push_flag(&mut s, x.armed);
            s.append(" overflowed=");
            push_flag(&mut s, x.overflowed);
            s.append(" wrapped_ever=");
            push_flag(&mut s, x.wrapped_ever);
            s.append(" ring_full=");
            push_flag(&mut s, x.ring_full);
            s.append(" policy=");
            if x.policy_wrap {
                s.append("WRAP");
            } else {
                s.append("STOP");
            }
            s.append(" heartbeat=");
            crate::text::push_dec_str(&mut s, x.heartbeat as u64);
            s
        },
    }
}

} // verus!

verus! {

use crate::error::HostError;
use crate::render::{O1Header, o1_header, o1_header_text};

/// `t` with each newline turned into a space.
pub open spec fn one_line(t: Seq<char>) -> Seq<char> {
    t.map_values(|c: char| if c == '\n' { ' ' } else { c })
}

/// `s` with each newline turned into a space.
pub fn to_one_line(s: &str) -> (r: String)
    ensures
        r@ == one_line(s@),
{
    let cs = crate::text::chars_of(s);
    let mut r = String::new();
    let mut i: usize = 0;
    while i < cs.len()
        invariant
            i <= cs@.len(),
            cs@ == s@,
            r@ == one_line(cs@.take(i as int)),
        decreases cs.len() - i,
    {
        let c = cs[i];
        crate::text::push_char(&mut r, if c == '\n' { ' ' } else { c });
        i = i + 1;
        assert(one_line(cs@.take(i as int)) =~= one_line(cs@.take((i - 1) as int)).push(
            if c == '\n' { ' ' } else { c },
        ));
    }
    assert(cs@.take(cs@.len() as int) =~= cs@);
    r
}

/// The refusal words of a HEAD block that would not decode.
pub open spec fn head_fault(e: Seq<char>) -> Seq<char> {
    "O1 HEAD: "@ + e
}

impl O1Decoder {
    /// Renders the HEAD block the instrument's header decoder gave. A HEAD
    /// that would not decode (a short or corrupt block, without both
    /// magics) is a decode fault naming itself, never a plausible-looking
    /// render.
    pub fn render_header(&self, head: Result<O1Header, String>) -> (r: Result<String, HostError>)
        ensures
            match head {
                Ok(h) => r matches Ok(s) && s@ == o1_header_text(h),
                Err(e) => r matches Err(HostError::Decode(m)) && m@ == head_fault(e@),
            },
    {
        match head {
            Ok(h) => Ok(o1_header(&h)),
            Err(e) => {
                let mut m = String::from_str("O1 HEAD: ");
                m.append(e.as_str());
                Err(HostError::Decode(m))
            },
        }
    }

    /// A one-line summary of the HEAD block for the capture container's
    /// text header: the header render on one line, or none where the block
    /// would not decode.
    pub fn header_summary(&self, head: Result<O1Header, String>) -> (r: Option<String>)
        ensures
            match head {
                Ok(h) => r matches Some(s) && s@ == one_line(o1_header_text(h)),
                Err(_) => r is None,
            },
    {
        match head {
            Ok(h) => {
                let full = o1_header(&h);
                Some(to_one_line(full.as_str()))
            },
            Err(_) => None,
        }
    }
}

/// The refusal of a CTRL action by an instrument that has no CTRL surface.
pub fn no_ctrl_surface() -> (e: HostError)
    ensures
        e matches HostError::Refused(m) && m@ == "this instrument exposes no CTRL surface"@,
{
    HostError::Refused(String::from_str("this instrument exposes no CTRL surface"))
}

/// The first index whose id is `instrument_id`.
pub open spec fn first_with_id(ids: Seq<u16>, instrument_id: u16) -> Option<nat>
    decreases ids.len(),
{
    if ids.len() == 0 {
        None
    } else {
        match first_with_id(ids.drop_last(), instrument_id) {
            Some(i) => Some(i),
            None => if ids.last() == instrument_id {
                Some((ids.len() - 1) as nat)
            } else {
                None
            },
        }
    }
}

/// Which registered decoder serves an instrument: the first one, in
/// registration order, that claims its id; `None`, and the caller renders
/// RAW, where none does.
pub fn registry_index(ids: &[u16], instrument_id: u16) -> (r: Option<usize>)
    ensures
        match r {
            Some(i) => first_with_id(ids@, instrument_id) == Some(i as nat),
            None => first_with_id(ids@, instrument_id) is None,
        },
        r matches Some(i) ==> i < ids@.len() && ids@[i as int] == instrument_id && forall|j: int|
            0 <= j < i ==> ids@[j] != instrument_id,
        r is None <==> forall|j: int| 0 <= j < ids@.len() ==> ids@[j] != instrument_id,
{
    let mut i: usize = 0;
    while i < ids.len()
        invariant
            i <= ids@.len(),
            first_with_id(ids@.take(i as int), instrument_id) is None,
            forall|j: int| 0 <= j < i ==> ids@[j] != instrument_id,
        decreases ids.len() - i,
    {
        assert(ids@.take(i + 1).drop_last() =~= ids@.take(i as int));
        if ids[i] == instrument_id {
            proof {
                lemma_first_with_id_prefix(ids@, i as nat, instrument_id);
            }
            return Some(i);
        }
        i = i + 1;
    }
    assert(ids@.take(ids@.len() as int) =~= ids@);
    None
}

proof fn lemma_first_with_id_prefix(ids: Seq<u16>, i: nat, instrument_id: u16)
    requires
        i < ids.len(),
        ids[i as int] == instrument_id,
        first_with_id(ids.take(i as int), instrument_id) is None,
    ensures
        first_with_id(ids, instrument_id) == Some(i),
    decreases ids.len(),
{
    if ids.len() > i + 1 {
        assert(ids.drop_last().take(i as int) =~= ids.take(i as int));
        lemma_first_with_id_prefix(ids.drop_last(), i, instrument_id);
    } else {
        assert(ids.drop_last() =~= ids.take(i as int));
    }
}

/// Registering one more decoder, claiming `added`, changes which decoder
/// serves an instrument only where none served it before and the new one
/// claims it: then the new one, the last, serves it.
pub proof fn lemma_register_keeps_first(ids: Seq<u16>, added: u16, instrument_id: u16)
    ensures
        first_with_id(ids, instrument_id) is Some ==> first_with_id(ids.push(added), instrument_id)
            == first_with_id(ids, instrument_id),
        first_with_id(ids, instrument_id) is None ==> first_with_id(ids.push(added), instrument_id)
            == if added == instrument_id {
            Some(ids.len())
        } else {
            None::<nat>
        },
{
    assert(ids.push(added).drop_last() =~= ids);
}

} // verus!
