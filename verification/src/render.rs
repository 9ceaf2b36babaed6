//! The render surface: one line format for every transport, fixed here as
//! the stable, line-oriented contract.
use vstd::prelude::*;

pub mod laws;
use crate::text::{
    ascii_chars, bin_text, dec_digits, dec_text, hex_digits, hex_text, pad_left, push_ascii,
    push_bin_str, push_dec_padded, push_dec_str, push_hex_str, lemma_dec_digits_all,
};

verus! {

/// The four bytes of `magic`, least significant first.
pub open spec fn le_bytes(magic: u32) -> Seq<u8> {
    seq![
        (magic & 0xFF) as u8,
        ((magic >> 8u32) & 0xFF) as u8,
        ((magic >> 16u32) & 0xFF) as u8,
        ((magic >> 24u32) & 0xFF) as u8,
    ]
}

/// The instrument magic, decoded little-endian into its four bytes, each
/// read as the character of the same number.
pub fn magic_ascii(magic: u32) -> (s: String)
    ensures
        s@ == le_bytes(magic).map_values(|b: u8| b as char),
{
    let mut s = String::new();
    let b0 = (magic & 0xFF) as u8;
    let b1 = ((magic >> 8u32) & 0xFF) as u8;
    let b2 = ((magic >> 16u32) & 0xFF) as u8;
    let b3 = ((magic >> 24u32) & 0xFF) as u8;
    crate::text::push_char(&mut s, b0 as char);
    crate::text::push_char(&mut s, b1 as char);
    crate::text::push_char(&mut s, b2 as char);
    crate::text::push_char(&mut s, b3 as char);
    assert(s@ =~= le_bytes(magic).map_values(|b: u8| b as char));
    s
}

/// One word line of a RAW render: the index right-aligned in four columns,
/// then the word as eight hexadecimal digits.
pub open spec fn raw_word_line(i: nat, w: u32) -> Seq<char> {
    "\n  ["@ + ascii_chars(pad_left(dec_digits(i), 4)) + "] 0x"@ + ascii_chars(hex_digits(w as nat, 8))
}

/// The word lines of a RAW render.
pub open spec fn raw_word_lines(words: Seq<u32>) -> Seq<char>
    decreases words.len(),
{
    if words.len() == 0 {
        Seq::empty()
    } else {
        raw_word_lines(words.drop_last()) + raw_word_line((words.len() - 1) as nat, words.last())
    }
}

/// The RAW render of a region.
pub open spec fn raw_region_text(region_index: u8, words: Seq<u32>) -> Seq<char> {
    "[region "@ + ascii_chars(dec_digits(region_index as nat)) + "] UNDECODED ("@ + ascii_chars(
        dec_digits(words.len()),
    ) + " words)"@ + raw_word_lines(words)
}

/// RAW render for an unidentified instrument or an undecoded region: the
/// literal word UNDECODED, and byte-faithful words, never a guess about an
/// instrument the host cannot identify.
pub fn raw_region(region_index: u8, words: &[u32]) -> (s: String)
    ensures
        s@ == raw_region_text(region_index, words@),
{
    let mut s = String::from_str("[region ");
    push_dec_str(&mut s, region_index as u64);
    s.append("] UNDECODED (");
    push_dec_str(&mut s, words.len() as u64);
    s.append(" words)");
    let ghost head = s@;
    let mut i: usize = 0;
    while i < words.len()
        invariant
            i <= words@.len(),
            s@ == head + raw_word_lines(words@.take(i as int)),
        decreases words.len() - i,
    {
        s.append("\n  [");
        let mut idx: Vec<u8> = Vec::new();
        push_dec_padded(&mut idx, i as u64, 4);
        proof {
            lemma_dec_digits_all(i as nat);
            assert(idx@ =~= pad_left(dec_digits(i as nat), 4));
            assert forall|k: int| 0 <= k < idx@.len() implies idx@[k] < 128 by {
                if dec_digits(i as nat).len() < 4 {
                    let pad = (4 - dec_digits(i as nat).len()) as int;
                    if k >= pad {
                        assert(idx@[k] == dec_digits(i as nat)[k - pad]);
                    }
                }
            }
        }
        push_ascii(&mut s, &idx);
        s.append("] 0x");
        push_hex_str(&mut s, words[i] as u128, 8);
        proof {
            assert(words@.take(i + 1).drop_last() =~= words@.take(i as int));
        }
        i = i + 1;
    }
    assert(words@.take(words@.len() as int) =~= words@);
    s
}

} // verus!

verus! {

/// One node of the hub walk, as the render reads it.
#[derive(Debug, Clone, Copy, PartialEq, Eq)]
pub struct HubNode {
    /// The node's address on the hub.
    pub address: u32,
    /// The node's type id.
    pub node_id: u32,
    /// The node's manufacturer id.
    pub manufacturer: u32,
    /// The node's instance number.
    pub instance: u32,
}

/// The hub walk, as the render reads it: the hub's parameters, its virtual
/// IR length, and the nodes found.
#[derive(Debug, Clone)]
pub struct Enumeration {
    pub n: u32,
    pub m: u32,
    pub vir_len: u32,
    pub nodes: Vec<HubNode>,
}

/// The instrument's IDENT block, as the render reads it.
#[derive(Debug, Clone, Copy, PartialEq, Eq)]
pub struct Ident {
    pub magic: u32,
    pub proto_version: u32,
    pub instrument_id: u32,
    pub instrument_version: u32,
    pub core_clock_hz: u32,
    pub region_count: u32,
    pub caps: u32,
}

/// A region's descriptor, as the render reads it.
#[derive(Debug, Clone)]
pub struct RegionInfo {
    /// The region's tag, as ASCII text.
    pub tag: String,
    /// The width of a word, in bits.
    pub word_width: u32,
    pub word_count: u32,
    pub words_per_vdr: u32,
    pub base_addr: u32,
}

/// The O1 instrument header, as the render reads it.
#[derive(Debug, Clone)]
pub struct O1Header {
    /// The core revision, as text.
    pub core_rev: String,
    pub ring_depth: u32,
    pub words_per_event: u32,
    /// The ring's overflow policy, as text.
    pub ring_policy: String,
    pub armed: bool,
    pub overflowed: bool,
    pub event_count: u32,
    pub dropped_count: u32,
    pub rollover_count: u32,
    /// The event filter, as text.
    pub filter: String,
}

/// One `[node]` line, opening with its newline.
pub open spec fn node_line(n: HubNode) -> Seq<char> {
    "\n[node]  addr="@ + dec_text(n.address as nat) + " type=0x"@ + hex_text(n.node_id as nat, 2)
        + " mfg=0x"@ + hex_text(n.manufacturer as nat, 3) + " inst="@ + dec_text(n.instance as nat)
}

/// The `[node]` lines of `nodes`, in order.
pub open spec fn node_lines(nodes: Seq<HubNode>) -> Seq<char>
    decreases nodes.len(),
{
    if nodes.len() == 0 {
        Seq::empty()
    } else {
        node_lines(nodes.drop_last()) + node_line(nodes.last())
    }
}

/// The `[hub]` line, then one `[node]` line per node.
pub open spec fn enumeration_text(n: u32, m: u32, vir_len: u32, nodes: Seq<HubNode>) -> Seq<char> {
    "[hub]   N="@ + dec_text(nodes.len()) + " n="@ + dec_text(n as nat) + " m="@ + dec_text(m as nat)
        + " vir_len="@ + dec_text(vir_len as nat) + node_lines(nodes)
}

fn push_node_line(s: &mut String, n: &HubNode)
    ensures
        final(s)@ == old(s)@ + node_line(*n),
{
    s.append("\n[node]  addr=");
    push_dec_str(s, n.address as u64);
    s.append(" type=0x");
    push_hex_str(s, n.node_id as u128, 2);
    s.append(" mfg=0x");
    push_hex_str(s, n.manufacturer as u128, 3);
    s.append(" inst=");
    push_dec_str(s, n.instance as u64);
}

/// The `[hub]` line plus one `[node]` line per enumerated node.
pub fn enumeration(e: &Enumeration) -> (s: String)
    ensures
        s@ == enumeration_text(e.n, e.m, e.vir_len, e.nodes@),
{
    let mut s = String::from_str("[hub]   N=");
    push_dec_str(&mut s, e.nodes.len() as u64);
    s.append(" n=");
    push_dec_str(&mut s, e.n as u64);
    s.append(" m=");
    push_dec_str(&mut s, e.m as u64);
    s.append(" vir_len=");
    push_dec_str(&mut s, e.vir_len as u64);
    let ghost head = s@;
    let mut i: usize = 0;
    while i < e.nodes.len()
        invariant
            i <= e.nodes@.len(),
            s@ == head + node_lines(e.nodes@.take(i as int)),
        decreases e.nodes.len() - i,
    {
        push_node_line(&mut s, &e.nodes[i]);
        proof {
            assert(e.nodes@.take(i + 1).drop_last() =~= e.nodes@.take(i as int));
        }
        i = i + 1;
    }
    assert(e.nodes@.take(e.nodes@.len() as int) =~= e.nodes@);
    s
}

/// The two `[IDENT]` lines.
pub open spec fn ident_text(id: Ident) -> Seq<char> {
    "[IDENT] magic=\""@ + le_bytes(id.magic).map_values(|b: u8| b as char) + "\" proto="@
        + dec_text(id.proto_version as nat) + " instrument=0x"@ + hex_text(id.instrument_id as nat, 4)
        + " version="@ + dec_text(id.instrument_version as nat) + " clk="@ + dec_text(
        id.core_clock_hz as nat,
    ) + " Hz\n[IDENT] regions="@ + dec_text(id.region_count as nat) + " caps=0b"@ + bin_text(
        id.caps as nat,
        3,
    )
}

/// The two `[IDENT]` lines.
pub fn ident(id: &Ident) -> (s: String)
    ensures
        s@ == ident_text(*id),
{
    let mut s = String::from_str("[IDENT] magic=\"");
    let m = magic_ascii(id.magic);
    s.append(m.as_str());
    s.append("\" proto=");
    push_dec_str(&mut s, id.proto_version as u64);
    s.append(" instrument=0x");
    push_hex_str(&mut s, id.instrument_id as u128, 4);
    s.append(" version=");
    push_dec_str(&mut s, id.instrument_version as u64);
    s.append(" clk=");
    push_dec_str(&mut s, id.core_clock_hz as u64);
    s.append(" Hz\n[IDENT] regions=");
    push_dec_str(&mut s, id.region_count as u64);
    s.append(" caps=0b");
    push_bin_str(&mut s, id.caps as u64, 3);
    s
}

/// One `[region N]` line.
pub open spec fn region_text(index: u8, ri: RegionInfo) -> Seq<char> {
    "[region "@ + dec_text(index as nat) + "] tag=\""@ + ri.tag@ + "\" "@ + dec_text(
        ri.word_width as nat,
    ) + "-bit x "@ + dec_text(ri.word_count as nat) + " words_per_vdr="@ + dec_text(
        ri.words_per_vdr as nat,
    ) + " base=0x"@ + hex_text(ri.base_addr as nat, 8)
}

/// One `[region N]` line.
pub fn region(index: u8, ri: &RegionInfo) -> (s: String)
    ensures
        s@ == region_text(index, *ri),
{
    let mut s = String::from_str("[region ");
    push_dec_str(&mut s, index as u64);
    s.append("] tag=\"");
    s.append(ri.tag.as_str());
    s.append("\" ");
    push_dec_str(&mut s, ri.word_width as u64);
    s.append("-bit x ");
    push_dec_str(&mut s, ri.word_count as u64);
    s.append(" words_per_vdr=");
    push_dec_str(&mut s, ri.words_per_vdr as u64);
    s.append(" base=0x");
    push_hex_str(&mut s, ri.base_addr as u128, 8);
    s
}

/// A flag as the digit `0` or `1`.
pub open spec fn flag_text(b: bool) -> Seq<char> {
    if b {
        "1"@
    } else {
        "0"@
    }
}

/// Appends a flag as the digit `0` or `1`.
pub fn push_flag(s: &mut String, b: bool)
    ensures
        final(s)@ == old(s)@ + flag_text(b),
{
    if b {
        s.append("1");
    } else {
        s.append("0");
    }
}

/// The O1 header render: one line of the ring's state, then the filter.
pub open spec fn o1_header_text(h: O1Header) -> Seq<char> {
    "core_rev="@ + h.core_rev@ + " ring="@ + dec_text(h.ring_depth as nat) + "x"@ + dec_text(
        h.words_per_event as nat,
    ) + "w policy="@ + h.ring_policy@ + " armed="@ + flag_text(h.armed) + " overflowed="@
        + flag_text(h.overflowed) + " events="@ + dec_text(h.event_count as nat) + " dropped="@
        + dec_text(h.dropped_count as nat) + " rollovers="@ + dec_text(h.rollover_count as nat)
        + "\n  filter: "@ + h.filter@
}

/// The O1 HEAD render: the ring's state on one line, the filter on the
/// next.
pub fn o1_header(h: &O1Header) -> (s: String)
    ensures
        s@ == o1_header_text(*h),
{
    let mut s = String::from_str("core_rev=");
    s.append(h.core_rev.as_str());
    s.append(" ring=");
    push_dec_str(&mut s, h.ring_depth as u64);
    s.append("x");
    push_dec_str(&mut s, h.words_per_event as u64);
    s.append("w policy=");
    s.append(h.ring_policy.as_str());
    s.append(" armed=");
    push_flag(&mut s, h.armed);
    s.append(" overflowed=");
    push_flag(&mut s, h.overflowed);
    s.append(" events=");
    push_dec_str(&mut s, h.event_count as u64);
    s.append(" dropped=");
    push_dec_str(&mut s, h.dropped_count as u64);
    s.append(" rollovers=");
    push_dec_str(&mut s, h.rollover_count as u64);
    s.append("\n  filter: ");
    s.append(h.filter.as_str());
    s
}

} // verus!

verus! {

use crate::wire::{hex_value, pow16, text_bytes, lemma_hex_len, lemma_hex_value_digits};

/// Each word line of a RAW render ends with exactly eight hexadecimal
/// digits, and those digits read back as the word: a RAW render is
/// byte-faithful.
pub proof fn lemma_raw_word_reads_back(i: nat, w: u32)
    ensures
        raw_word_line(i, w).len() >= 8,
        hex_value(
            text_bytes(
                raw_word_line(i, w).subrange(
                    raw_word_line(i, w).len() - 8,
                    raw_word_line(i, w).len() as int,
                ),
            ),
        ) == w,
{
    let d = hex_digits(w as nat, 8);
    assert(pow16(8) == 0x1_0000_0000) by {
        reveal_with_fuel(pow16, 9);
    }
    lemma_hex_len(w as nat, 8);
    lemma_hex_value_digits(w as nat, 8);
    let line = raw_word_line(i, w);
    assert(line.subrange(line.len() - 8, line.len() as int) =~= ascii_chars(d));
    assert(text_bytes(ascii_chars(d)) =~= d);
}

} // verus!

verus! {

/// The number of newlines in `s`.
pub open spec fn newlines(s: Seq<char>) -> nat
    decreases s.len(),
{
    if s.len() == 0 {
        0
    } else {
        newlines(s.drop_last()) + if s.last() == '\n' {
            1nat
        } else {
            0nat
        }
    }
}

proof fn lemma_newlines_concat(a: Seq<char>, b: Seq<char>)
    ensures
        newlines(a + b) == newlines(a) + newlines(b),
    decreases b.len(),
{
    if b.len() == 0 {
        assert(a + b =~= a);
    } else {
        lemma_newlines_concat(a, b.drop_last());
        assert((a + b).drop_last() =~= a + b.drop_last());
    }
}

proof fn lemma_newlines_none(s: Seq<char>)
    requires
        forall|i: int| 0 <= i < s.len() ==> #[trigger] s[i] != '\n',
    ensures
        newlines(s) == 0,
    decreases s.len(),
{
    if s.len() > 0 {
        lemma_newlines_none(s.drop_last());
    }
}

/// Digits, and the spaces that pad them, hold no newline.
proof fn lemma_newlines_digits(d: Seq<u8>)
    requires
        forall|i: int| 0 <= i < d.len() ==> (#[trigger] d[i] == 32 || 48 <= d[i] <= 70),
    ensures
        newlines(ascii_chars(d)) == 0,
{
    assert forall|i: int| 0 <= i < ascii_chars(d).len() implies #[trigger] ascii_chars(d)[i]
        != '\n' by {
        assert(ascii_chars(d)[i] == d[i] as char);
    }
    lemma_newlines_none(ascii_chars(d));
}

proof fn lemma_newlines_word_line(i: nat, w: u32)
    ensures
        newlines(raw_word_line(i, w)) == 1,
{
    reveal_strlit("\n  [");
    reveal_strlit("  [");
    reveal_strlit("] 0x");
    let pad = pad_left(dec_digits(i), 4);
    crate::text::lemma_dec_digits_all(i);
    assert forall|k: int| 0 <= k < pad.len() implies (#[trigger] pad[k] == 32 || 48 <= pad[k]
        <= 70) by {
        if dec_digits(i).len() < 4 && k < 4 - dec_digits(i).len() {
        } else if dec_digits(i).len() < 4 {
            assert(pad[k] == dec_digits(i)[k - (4 - dec_digits(i).len())]);
        }
    }
    lemma_newlines_digits(pad);
    crate::text::lemma_hex_digits_all(w as nat, 8);
    let hx = hex_digits(w as nat, 8);
    assert forall|k: int| 0 <= k < hx.len() implies (#[trigger] hx[k] == 32 || 48 <= hx[k] <= 70) by {
        assert(48 <= hx[k] <= 57 || 65 <= hx[k] <= 70);
    }
    lemma_newlines_digits(hx);
    let open_ = "\n  ["@;
    assert(open_ =~= seq!['\n'] + "  ["@);
    lemma_newlines_concat(seq!['\n'], "  ["@);
    assert(seq!['\n'].drop_last() =~= Seq::<char>::empty());
    assert(newlines(Seq::<char>::empty()) == 0);
    assert(newlines(seq!['\n']) == 1);
    lemma_newlines_none("  ["@);
    lemma_newlines_none("] 0x"@);
    lemma_newlines_concat(open_, ascii_chars(pad));
    lemma_newlines_concat(open_ + ascii_chars(pad), "] 0x"@);
    lemma_newlines_concat(open_ + ascii_chars(pad) + "] 0x"@, ascii_chars(hx));
    assert(raw_word_line(i, w) == open_ + ascii_chars(pad) + "] 0x"@ + ascii_chars(hx));
}

proof fn lemma_newlines_word_lines(words: Seq<u32>)
    ensures
        newlines(raw_word_lines(words)) == words.len(),
    decreases words.len(),
{
    if words.len() > 0 {
        lemma_newlines_word_lines(words.drop_last());
        lemma_newlines_word_line((words.len() - 1) as nat, words.last());
        lemma_newlines_concat(
            raw_word_lines(words.drop_last()),
            raw_word_line((words.len() - 1) as nat, words.last()),
        );
    }
}

/// A RAW render is one header line, then one line per word: it holds
/// exactly as many newlines as there are words.
pub proof fn lemma_raw_region_lines(region_index: u8, words: Seq<u32>)
    ensures
        newlines(raw_region_text(region_index, words)) == words.len(),
{
    reveal_strlit("[region ");
    reveal_strlit("] UNDECODED (");
    reveal_strlit(" words)");
    lemma_newlines_none("[region "@);
    lemma_newlines_none("] UNDECODED ("@);
    lemma_newlines_none(" words)"@);
    crate::text::lemma_dec_digits_all(region_index as nat);
    crate::text::lemma_dec_digits_all(words.len());
    lemma_newlines_digits(dec_digits(region_index as nat));
    lemma_newlines_digits(dec_digits(words.len()));
    let a = "[region "@ + ascii_chars(dec_digits(region_index as nat));
    lemma_newlines_concat("[region "@, ascii_chars(dec_digits(region_index as nat)));
    lemma_newlines_concat(a, "] UNDECODED ("@);
    lemma_newlines_concat(a + "] UNDECODED ("@, ascii_chars(dec_digits(words.len())));
    lemma_newlines_concat(a + "] UNDECODED ("@ + ascii_chars(dec_digits(words.len())), " words)"@);
    lemma_newlines_word_lines(words);
    lemma_newlines_concat(
        a + "] UNDECODED ("@ + ascii_chars(dec_digits(words.len())) + " words)"@,
        raw_word_lines(words),
    );
}

} // verus!
