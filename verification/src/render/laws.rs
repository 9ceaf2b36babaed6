//! What the renders say, read back: the IDENT lines, a region line, the hub
//! and node lines of a hub walk, the head and word lines of a RAW render and
//! the O1 header each read back as the values they were made from, every
//! value under its own name.
use vstd::prelude::*;
use crate::render::{
    HubNode, Ident, O1Header, RegionInfo, enumeration_text, flag_text, ident_text, le_bytes,
    node_line, node_lines, o1_header_text, raw_region_text, raw_word_line, raw_word_lines,
    region_text,
};
use crate::text::{ascii_chars, bin_digits, dec_digits, digit, hex_digits, pad_left};
use crate::decoder::laws::{keyed_flag_at, lemma_flag_then, lemma_space_end, space_end};
use crate::wire::{
    dec_at, hex_run_at, is_prefix_at, line_text, lit, lit_at, text_at, text_bytes, lemma_dec_at,
    lemma_encode_ascii_bytes, lemma_encode_concat, lemma_hex_run_at, lemma_prefix_byte,
    lemma_prefix_split, lemma_text_at_any, rest_text_at, lemma_rest_text_at, word_text, lemma_text_bytes_ascii, lemma_text_bytes_concat,
};
use vstd::utf8::encode_utf8;

verus! {

/// A binary digit byte.
pub open spec fn is_bin_byte(x: u8) -> bool {
    x == 48 || x == 49
}

/// The value of binary digits, most significant first.
pub open spec fn bin_value(s: Seq<u8>) -> nat
    decreases s.len(),
{
    if s.len() == 0 {
        0
    } else {
        bin_value(s.drop_last()) * 2 + if s.last() == 49 {
            1nat
        } else {
            0nat
        }
    }
}

/// Where the run of binary digits that starts at `pos` ends.
pub open spec fn bin_end(b: Seq<u8>, pos: int) -> int
    decreases b.len() - pos,
{
    if 0 <= pos < b.len() && is_bin_byte(b[pos]) {
        bin_end(b, pos + 1)
    } else {
        pos
    }
}

/// Reads a binary number at `pos`: at least one digit, the whole run.
pub open spec fn bin_run_at(b: Seq<u8>, pos: int) -> Option<(nat, int)> {
    let e = bin_end(b, pos);
    if 0 <= pos < e {
        Some((bin_value(b.subrange(pos, e)), e))
    } else {
        None
    }
}

proof fn lemma_bin_digits(n: nat, w: nat)
    ensures
        bin_value(bin_digits(n, w)) == n,
        forall|i: int| 0 <= i < bin_digits(n, w).len() ==> is_bin_byte(#[trigger] bin_digits(n, w)[i]),
        bin_digits(n, w).len() >= 1,
    decreases n, w,
{
    if !(n < 2 && w <= 1) {
        let w2: nat = if w > 0 { (w - 1) as nat } else { 0 };
        lemma_bin_digits(n / 2, w2);
        let d = bin_digits(n, w);
        assert(d == bin_digits(n / 2, w2).push(digit(n % 2)));
        assert(d.drop_last() =~= bin_digits(n / 2, w2));
        assert forall|i: int| 0 <= i < d.len() implies is_bin_byte(#[trigger] d[i]) by {
            if i < d.len() - 1 {
                assert(d[i] == bin_digits(n / 2, w2)[i]);
            }
        }
        assert(d.last() == digit(n % 2));
        assert(n == (n / 2) * 2 + n % 2) by (nonlinear_arith);
    } else {
        assert(bin_digits(n, w).drop_last() =~= Seq::<u8>::empty());
        assert(bin_digits(n, w).last() == digit(n));
        assert(bin_value(Seq::<u8>::empty()) == 0);
    }
}

proof fn lemma_bin_end(b: Seq<u8>, pos: int, len: int)
    requires
        0 <= pos,
        0 <= len,
        pos + len <= b.len(),
        forall|i: int| pos <= i < pos + len ==> is_bin_byte(#[trigger] b[i]),
        pos + len == b.len() || !is_bin_byte(b[pos + len]),
    ensures
        bin_end(b, pos) == pos + len,
    decreases len,
{
    if len > 0 {
        lemma_bin_end(b, pos + 1, len - 1);
    }
}

proof fn lemma_bin_run_at(b: Seq<u8>, pos: int, n: nat, w: nat)
    requires
        is_prefix_at(b, pos, bin_digits(n, w)),
        pos + bin_digits(n, w).len() == b.len() || !is_bin_byte(b[pos + bin_digits(n, w).len()]),
    ensures
        bin_run_at(b, pos) == Some((n, pos + bin_digits(n, w).len())),
{
    let d = bin_digits(n, w);
    lemma_bin_digits(n, w);
    assert forall|i: int| pos <= i < pos + d.len() implies is_bin_byte(#[trigger] b[i]) by {
        assert(b[i] == d[i - pos]);
    }
    lemma_bin_end(b, pos, d.len() as int);
    assert(b.subrange(pos, pos + d.len()) =~= d);
}

/// Where `c + p` stands at 0 in `b`, `c` stands at 0 and `p` right after it.
pub proof fn lemma_peel(b: Seq<u8>, c: Seq<char>, p: Seq<char>)
    requires
        is_prefix_at(b, 0, text_bytes(c + p)),
    ensures
        is_prefix_at(b, 0, text_bytes(c)),
        is_prefix_at(b, c.len() as int, text_bytes(p)),
{
    lemma_text_bytes_concat(c, p);
    lemma_prefix_split(b, 0, text_bytes(c), text_bytes(p));
}

/// Reads the two IDENT lines: the magic's four bytes between quotes, then
/// `proto=`, `instrument=0x`, `version=`, `clk=` (with ` Hz`), `regions=`
/// and `caps=0b`, each with its number.
pub open spec fn ident_reading(t: Seq<char>) -> Option<(Seq<u8>, nat, nat, nat, nat, nat, nat)> {
    let b = text_bytes(t);
    let big = 0xFFFF_FFFFnat;
    match lit_at(b, 0, lit("[IDENT] magic=\"")) {
        None => None,
        Some(p1) => if p1 + 4 <= b.len() {
            let magic = b.subrange(p1, p1 + 4);
            match lit_at(b, p1 + 4, lit("\" proto=")) {
                None => None,
                Some(p2) => match dec_at(b, p2, big) {
                    None => None,
                    Some((proto, p3)) => match lit_at(b, p3, lit(" instrument=0x")) {
                        None => None,
                        Some(p4) => match hex_run_at(b, p4) {
                            None => None,
                            Some((id, p5)) => match lit_at(b, p5, lit(" version=")) {
                                None => None,
                                Some(p6) => match dec_at(b, p6, big) {
                                    None => None,
                                    Some((ver, p7)) => match lit_at(b, p7, lit(" clk=")) {
                                        None => None,
                                        Some(p8) => match dec_at(b, p8, big) {
                                            None => None,
                                            Some((clk, p9)) => match lit_at(
                                                b,
                                                p9,
                                                lit(" Hz\n[IDENT] regions="),
                                            ) {
                                                None => None,
                                                Some(p10) => match dec_at(b, p10, big) {
                                                    None => None,
                                                    Some((regions, p11)) => match lit_at(
                                                        b,
                                                        p11,
                                                        lit(" caps=0b"),
                                                    ) {
                                                        None => None,
                                                        Some(p12) => match bin_run_at(b, p12) {
                                                            Some((caps, e)) => if e == b.len() {
                                                                Some(
                                                                    (
                                                                        magic,
                                                                        proto,
                                                                        id,
                                                                        ver,
                                                                        clk,
                                                                        regions,
                                                                        caps,
                                                                    ),
                                                                )
                                                            } else {
                                                                None
                                                            },
                                                            None => None,
                                                        },
                                                    },
                                                },
                                            },
                                        },
                                    },
                                },
                            },
                        },
                    },
                },
            }
        } else {
            None
        },
    }
}

/// The IDENT lines read back as the block they were made from: the
/// magic's bytes least significant first, then the proto version, the
/// instrument id, its version, the core clock, the region count and the
/// capabilities, each under its own name.
#[verifier::spinoff_prover]
#[verifier::rlimit(50)]
pub proof fn lemma_ident_reads_back(id: Ident)
    ensures
        ident_reading(ident_text(id)) == Some(
            (
                le_bytes(id.magic),
                id.proto_version as nat,
                id.instrument_id as nat,
                id.instrument_version as nat,
                id.core_clock_hz as nat,
                id.region_count as nat,
                id.caps as nat,
            ),
        ),
{
    reveal_strlit("[IDENT] magic=\"");
    reveal_strlit("\" proto=");
    reveal_strlit(" instrument=0x");
    reveal_strlit(" version=");
    reveal_strlit(" clk=");
    reveal_strlit(" Hz\n[IDENT] regions=");
    reveal_strlit(" caps=0b");
    let t = ident_text(id);
    let b = text_bytes(t);
    let mg = le_bytes(id.magic).map_values(|x: u8| x as char);
    let d1 = dec_digits(id.proto_version as nat);
    let h1 = hex_digits(id.instrument_id as nat, 4);
    let d2 = dec_digits(id.instrument_version as nat);
    let d3 = dec_digits(id.core_clock_hz as nat);
    let d4 = dec_digits(id.region_count as nat);
    let bn = bin_digits(id.caps as nat, 3);
    let c1 = "[IDENT] magic=\""@;
    let c2 = c1 + mg;
    let c3 = c2 + "\" proto="@;
    let c4 = c3 + ascii_chars(d1);
    let c5 = c4 + " instrument=0x"@;
    let c6 = c5 + ascii_chars(h1);
    let c7 = c6 + " version="@;
    let c8 = c7 + ascii_chars(d2);
    let c9 = c8 + " clk="@;
    let c10 = c9 + ascii_chars(d3);
    let c11 = c10 + " Hz\n[IDENT] regions="@;
    let c12 = c11 + ascii_chars(d4);
    let c13 = c12 + " caps=0b"@;
    assert(t == c13 + ascii_chars(bn));
    assert(b.subrange(0, b.len() as int) =~= b);
    lemma_peel(b, c13, ascii_chars(bn));
    lemma_peel(b, c12, " caps=0b"@);
    lemma_peel(b, c11, ascii_chars(d4));
    lemma_peel(b, c10, " Hz\n[IDENT] regions="@);
    lemma_peel(b, c9, ascii_chars(d3));
    lemma_peel(b, c8, " clk="@);
    lemma_peel(b, c7, ascii_chars(d2));
    lemma_peel(b, c6, " version="@);
    lemma_peel(b, c5, ascii_chars(h1));
    lemma_peel(b, c4, " instrument=0x"@);
    lemma_peel(b, c3, ascii_chars(d1));
    lemma_peel(b, c2, "\" proto="@);
    lemma_peel(b, c1, mg);
    assert(text_bytes(mg) =~= le_bytes(id.magic));
    lemma_text_bytes_ascii(d1);
    lemma_text_bytes_ascii(h1);
    lemma_text_bytes_ascii(d2);
    lemma_text_bytes_ascii(d3);
    lemma_text_bytes_ascii(d4);
    lemma_text_bytes_ascii(bn);
    assert(text_bytes(c1) == lit("[IDENT] magic=\""));
    assert(text_bytes("\" proto="@) == lit("\" proto="));
    assert(text_bytes(" instrument=0x"@) == lit(" instrument=0x"));
    assert(text_bytes(" version="@) == lit(" version="));
    assert(text_bytes(" clk="@) == lit(" clk="));
    assert(text_bytes(" Hz\n[IDENT] regions="@) == lit(" Hz\n[IDENT] regions="));
    assert(text_bytes(" caps=0b"@) == lit(" caps=0b"));
    assert(b.subrange(15, 19) =~= le_bytes(id.magic)) by {
        assert forall|k: int| 0 <= k < 4 implies #[trigger] b.subrange(15, 19)[k] == le_bytes(
            id.magic,
        )[k] by {
            lemma_prefix_byte(b, 15, le_bytes(id.magic), k);
        }
    }
    lemma_prefix_byte(b, c4.len() as int, lit(" instrument=0x"), 0);
    lemma_prefix_byte(b, c6.len() as int, lit(" version="), 0);
    lemma_prefix_byte(b, c8.len() as int, lit(" clk="), 0);
    lemma_prefix_byte(b, c10.len() as int, lit(" Hz\n[IDENT] regions="), 0);
    lemma_prefix_byte(b, c12.len() as int, lit(" caps=0b"), 0);
    lemma_dec_at(b, c3.len() as int, id.proto_version as nat, 0xFFFF_FFFF);
    lemma_hex_run_at(b, c5.len() as int, id.instrument_id as nat, 4);
    lemma_dec_at(b, c7.len() as int, id.instrument_version as nat, 0xFFFF_FFFF);
    lemma_dec_at(b, c9.len() as int, id.core_clock_hz as nat, 0xFFFF_FFFF);
    lemma_dec_at(b, c11.len() as int, id.region_count as nat, 0xFFFF_FFFF);
    lemma_bin_run_at(b, c13.len() as int, id.caps as nat, 3);
}

/// An ASCII literal is encoded as its own bytes.
proof fn lemma_lit_bytes(s: &str)
    requires
        vstd::string::is_ascii(s),
    ensures
        encode_utf8(s@) == lit(s),
{
    crate::wire::lemma_encode_ascii(s@);
    assert(text_bytes(s@) =~= lit(s));
}

/// Where `c + p` is encoded at 0 in `b`, `c` is encoded at 0 and `p` right
/// after it.
proof fn lemma_peel_utf8(b: Seq<u8>, c: Seq<char>, p: Seq<char>)
    requires
        is_prefix_at(b, 0, encode_utf8(c + p)),
    ensures
        is_prefix_at(b, 0, encode_utf8(c)),
        is_prefix_at(b, encode_utf8(c).len() as int, encode_utf8(p)),
        encode_utf8(c + p).len() == encode_utf8(c).len() + encode_utf8(p).len(),
{
    lemma_encode_concat(c, p);
    lemma_prefix_split(b, 0, encode_utf8(c), encode_utf8(p));
}

/// Reads a region line: `[region N] tag="T" W-bit x C words_per_vdr=V
/// base=0xB`, the tag up to its closing quote.
pub open spec fn region_reading(t: Seq<char>) -> Option<(nat, Seq<char>, nat, nat, nat, nat)> {
    let b = encode_utf8(t);
    let big = 0xFFFF_FFFFnat;
    match lit_at(b, 0, lit("[region ")) {
        None => None,
        Some(p1) => match dec_at(b, p1, big) {
            None => None,
            Some((index, p2)) => match lit_at(b, p2, lit("] tag=\"")) {
                None => None,
                Some(p3) => match text_at(b, p3, 34) {
                    None => None,
                    Some((tag, p4)) => match lit_at(b, p4, lit("\" ")) {
                        None => None,
                        Some(p5) => match dec_at(b, p5, big) {
                            None => None,
                            Some((width, p6)) => match lit_at(b, p6, lit("-bit x ")) {
                                None => None,
                                Some(p7) => match dec_at(b, p7, big) {
                                    None => None,
                                    Some((count, p8)) => match lit_at(b, p8, lit(" words_per_vdr=")) {
                                        None => None,
                                        Some(p9) => match dec_at(b, p9, big) {
                                            None => None,
                                            Some((wpv, p10)) => match lit_at(b, p10, lit(" base=0x")) {
                                                None => None,
                                                Some(p11) => match hex_run_at(b, p11) {
                                                    Some((base, e)) => if e == b.len() {
                                                        Some((index, tag, width, count, wpv, base))
                                                    } else {
                                                        None
                                                    },
                                                    None => None,
                                                },
                                            },
                                        },
                                    },
                                },
                            },
                        },
                    },
                },
            },
        },
    }
}

/// A region line reads back as the region it was made from, for a tag
/// that holds no quote and no newline: the index, the tag, the word
/// width, the word count, the words per shift and the base address, each
/// under its own name.
#[verifier::spinoff_prover]
#[verifier::rlimit(50)]
pub proof fn lemma_region_reads_back(index: u8, ri: RegionInfo)
    requires
        line_text(ri.tag@),
        forall|i: int| 0 <= i < ri.tag@.len() ==> (#[trigger] ri.tag@[i]) as u32 != 34,
    ensures
        region_reading(region_text(index, ri)) == Some(
            (
                index as nat,
                ri.tag@,
                ri.word_width as nat,
                ri.word_count as nat,
                ri.words_per_vdr as nat,
                ri.base_addr as nat,
            ),
        ),
{
    reveal_strlit("[region ");
    reveal_strlit("] tag=\"");
    reveal_strlit("\" ");
    reveal_strlit("-bit x ");
    reveal_strlit(" words_per_vdr=");
    reveal_strlit(" base=0x");
    lemma_lit_bytes("[region ");
    lemma_lit_bytes("] tag=\"");
    lemma_lit_bytes("\" ");
    lemma_lit_bytes("-bit x ");
    lemma_lit_bytes(" words_per_vdr=");
    lemma_lit_bytes(" base=0x");
    let t = region_text(index, ri);
    let b = encode_utf8(t);
    let d0 = dec_digits(index as nat);
    let d1 = dec_digits(ri.word_width as nat);
    let d2 = dec_digits(ri.word_count as nat);
    let d3 = dec_digits(ri.words_per_vdr as nat);
    let hx = hex_digits(ri.base_addr as nat, 8);
    crate::text::lemma_dec_digits_all(index as nat);
    crate::text::lemma_dec_digits_all(ri.word_width as nat);
    crate::text::lemma_dec_digits_all(ri.word_count as nat);
    crate::text::lemma_dec_digits_all(ri.words_per_vdr as nat);
    crate::text::lemma_hex_digits_all(ri.base_addr as nat, 8);
    lemma_encode_ascii_bytes(d0);
    lemma_encode_ascii_bytes(d1);
    lemma_encode_ascii_bytes(d2);
    lemma_encode_ascii_bytes(d3);
    lemma_encode_ascii_bytes(hx);
    let c1 = "[region "@;
    let c2 = c1 + ascii_chars(d0);
    let c3 = c2 + "] tag=\""@;
    let c4 = c3 + ri.tag@;
    let c5 = c4 + "\" "@;
    let c6 = c5 + ascii_chars(d1);
    let c7 = c6 + "-bit x "@;
    let c8 = c7 + ascii_chars(d2);
    let c9 = c8 + " words_per_vdr="@;
    let c10 = c9 + ascii_chars(d3);
    let c11 = c10 + " base=0x"@;
    assert(t == c11 + ascii_chars(hx));
    assert(b.subrange(0, b.len() as int) =~= b);
    lemma_peel_utf8(b, c11, ascii_chars(hx));
    lemma_peel_utf8(b, c10, " base=0x"@);
    lemma_peel_utf8(b, c9, ascii_chars(d3));
    lemma_peel_utf8(b, c8, " words_per_vdr="@);
    lemma_peel_utf8(b, c7, ascii_chars(d2));
    lemma_peel_utf8(b, c6, "-bit x "@);
    lemma_peel_utf8(b, c5, ascii_chars(d1));
    lemma_peel_utf8(b, c4, "\" "@);
    lemma_peel_utf8(b, c3, ri.tag@);
    lemma_peel_utf8(b, c2, "] tag=\""@);
    lemma_peel_utf8(b, c1, ascii_chars(d0));
    let e3 = encode_utf8(c3).len() as int;
    let et = encode_utf8(ri.tag@);
    lemma_prefix_byte(b, e3 + et.len(), lit("\" "), 0);
    lemma_prefix_byte(b, e3 + et.len(), lit("\" "), 1);
    assert(is_prefix_at(b, e3, et.push(34u8))) by {
        assert(b.subrange(e3, e3 + et.len() + 1) =~= et.push(34u8)) by {
            assert forall|k: int| 0 <= k < et.len() + 1 implies #[trigger] b.subrange(
                e3,
                e3 + et.len() + 1,
            )[k] == et.push(34u8)[k] by {
                if k < et.len() {
                    lemma_prefix_byte(b, e3, et, k);
                }
            }
        }
    }
    lemma_text_at_any(b, e3, ri.tag@, 34);
    lemma_prefix_byte(b, encode_utf8(c2).len() as int, lit("] tag=\""), 0);
    lemma_prefix_byte(b, encode_utf8(c6).len() as int, lit("-bit x "), 0);
    lemma_prefix_byte(b, encode_utf8(c8).len() as int, lit(" words_per_vdr="), 0);
    lemma_prefix_byte(b, encode_utf8(c10).len() as int, lit(" base=0x"), 0);
    lemma_dec_at(b, encode_utf8(c1).len() as int, index as nat, 0xFFFF_FFFF);
    lemma_dec_at(b, encode_utf8(c5).len() as int, ri.word_width as nat, 0xFFFF_FFFF);
    lemma_dec_at(b, encode_utf8(c7).len() as int, ri.word_count as nat, 0xFFFF_FFFF);
    lemma_dec_at(b, encode_utf8(c9).len() as int, ri.words_per_vdr as nat, 0xFFFF_FFFF);
    lemma_hex_run_at(b, encode_utf8(c11).len() as int, ri.base_addr as nat, 8);
}

/// Reads the O1 header render: `core_rev=`, `ring=DxWw`, `policy=`, the
/// `armed=` and `overflowed=` flags, `events=`, `dropped=`, `rollovers=`,
/// and on the next line `filter: ` with the rest.
pub open spec fn o1_header_reading(t: Seq<char>) -> Option<O1HeaderModel> {
    let b = encode_utf8(t);
    match o1_front_at(b) {
        None => None,
        Some((rev, depth, wpe, policy, p)) => match o1_back_at(b, p) {
            None => None,
            Some((armed, overflowed, events, dropped, rollovers, filter)) => Some(
                header_of(rev, depth, wpe, policy, armed, overflowed, events, dropped, rollovers, filter),
            ),
        },
    }
}

/// Reads `core_rev=R ring=DxWw policy=P`.
pub open spec fn o1_front_at(b: Seq<u8>) -> Option<(Seq<char>, nat, nat, Seq<char>, int)> {
    let big = 0xFFFF_FFFFnat;
    match lit_at(b, 0, lit("core_rev=")) {
        None => None,
        Some(p1) => match text_at(b, p1, 32) {
            None => None,
            Some((rev, p2)) => match lit_at(b, p2, lit(" ring=")) {
                None => None,
                Some(p3) => match dec_at(b, p3, big) {
                    None => None,
                    Some((depth, p4)) => match lit_at(b, p4, lit("x")) {
                        None => None,
                        Some(p5) => match dec_at(b, p5, big) {
                            None => None,
                            Some((wpe, p6)) => match lit_at(b, p6, lit("w policy=")) {
                                None => None,
                                Some(p7) => match text_at(b, p7, 32) {
                                    None => None,
                                    Some((policy, p8)) => Some((rev, depth, wpe, policy, p8)),
                                },
                            },
                        },
                    },
                },
            },
        },
    }
}

/// Reads ` armed=A overflowed=O events=E dropped=D rollovers=R`, a newline
/// and `  filter: ` with the rest.
pub open spec fn o1_back_at(b: Seq<u8>, p: int) -> Option<(bool, bool, nat, nat, nat, Seq<char>)> {
    let big = 0xFFFF_FFFFnat;
    match keyed_flag_at(b, p, lit(" armed=")) {
        None => None,
        Some((armed, p9)) => match keyed_flag_at(b, p9, lit(" overflowed=")) {
            None => None,
            Some((overflowed, p10)) => match lit_at(b, p10, lit(" events=")) {
                None => None,
                Some(p11) => match dec_at(b, p11, big) {
                    None => None,
                    Some((events, p12)) => match lit_at(b, p12, lit(" dropped=")) {
                        None => None,
                        Some(p13) => match dec_at(b, p13, big) {
                            None => None,
                            Some((dropped, p14)) => match lit_at(b, p14, lit(" rollovers=")) {
                                None => None,
                                Some(p15) => match dec_at(b, p15, big) {
                                    None => None,
                                    Some((rollovers, p16)) => match lit_at(
                                        b,
                                        p16,
                                        lit("\n  filter: "),
                                    ) {
                                        None => None,
                                        Some(p17) => match rest_text_at(b, p17) {
                                            None => None,
                                            Some(filter) => Some(
                                                (armed, overflowed, events, dropped, rollovers, filter),
                                            ),
                                        },
                                    },
                                },
                            },
                        },
                    },
                },
            },
        },
    }
}

/// The values of an O1 header, as a value of the header's own shape with
/// its texts as character sequences.
pub struct O1HeaderModel {
    pub core_rev: Seq<char>,
    pub ring_depth: nat,
    pub words_per_event: nat,
    pub ring_policy: Seq<char>,
    pub armed: bool,
    pub overflowed: bool,
    pub event_count: nat,
    pub dropped_count: nat,
    pub rollover_count: nat,
    pub filter: Seq<char>,
}

pub open spec fn header_of(
    core_rev: Seq<char>,
    ring_depth: nat,
    words_per_event: nat,
    ring_policy: Seq<char>,
    armed: bool,
    overflowed: bool,
    event_count: nat,
    dropped_count: nat,
    rollover_count: nat,
    filter: Seq<char>,
) -> O1HeaderModel {
    O1HeaderModel {
        core_rev,
        ring_depth,
        words_per_event,
        ring_policy,
        armed,
        overflowed,
        event_count,
        dropped_count,
        rollover_count,
        filter,
    }
}

proof fn lemma_word_then(b: Seq<u8>, p: int, t: Seq<char>, next: Seq<u8>)
    requires
        word_text(t),
        0 <= p,
        is_prefix_at(b, p, encode_utf8(t)),
        is_prefix_at(b, p + encode_utf8(t).len(), next),
        next.len() > 0,
        next[0] == 32,
    ensures
        text_at(b, p, 32) == Some((t, p + encode_utf8(t).len())),
{
    let et = encode_utf8(t);
    lemma_prefix_byte(b, p + et.len(), next, 0);
    assert(b.subrange(p, p + et.len() + 1) =~= et.push(32u8)) by {
        assert forall|k: int| 0 <= k < et.len() + 1 implies #[trigger] b.subrange(
            p,
            p + et.len() + 1,
        )[k] == et.push(32u8)[k] by {
            if k < et.len() {
                lemma_prefix_byte(b, p, et, k);
            }
        }
    }
    lemma_text_at_any(b, p, t, 32);
}

/// The O1 header render reads back as the header it was made from, for a
/// core revision and a policy that are single words: each count and flag
/// under its own name, the filter last.
#[verifier::spinoff_prover]
#[verifier::rlimit(100)]
pub proof fn lemma_o1_header_reads_back(h: O1Header)
    requires
        word_text(h.core_rev@),
        word_text(h.ring_policy@),
    ensures
        o1_header_reading(o1_header_text(h)) == Some(
            header_of(
                h.core_rev@,
                h.ring_depth as nat,
                h.words_per_event as nat,
                h.ring_policy@,
                h.armed,
                h.overflowed,
                h.event_count as nat,
                h.dropped_count as nat,
                h.rollover_count as nat,
                h.filter@,
            ),
        ),
{
    reveal_strlit("core_rev=");
    reveal_strlit(" ring=");
    reveal_strlit("x");
    reveal_strlit("w policy=");
    reveal_strlit(" armed=");
    reveal_strlit(" overflowed=");
    reveal_strlit(" events=");
    reveal_strlit(" dropped=");
    reveal_strlit(" rollovers=");
    reveal_strlit("\n  filter: ");
    reveal_strlit("1");
    reveal_strlit("0");
    lemma_lit_bytes("core_rev=");
    lemma_lit_bytes(" ring=");
    lemma_lit_bytes("x");
    lemma_lit_bytes("w policy=");
    lemma_lit_bytes(" armed=");
    lemma_lit_bytes(" overflowed=");
    lemma_lit_bytes(" events=");
    lemma_lit_bytes(" dropped=");
    lemma_lit_bytes(" rollovers=");
    lemma_lit_bytes("\n  filter: ");
    lemma_lit_bytes("1");
    lemma_lit_bytes("0");
    let t = o1_header_text(h);
    let b = encode_utf8(t);
    let dd = dec_digits(h.ring_depth as nat);
    let dw = dec_digits(h.words_per_event as nat);
    let de = dec_digits(h.event_count as nat);
    let dr = dec_digits(h.dropped_count as nat);
    let dl = dec_digits(h.rollover_count as nat);
    crate::text::lemma_dec_digits_all(h.ring_depth as nat);
    crate::text::lemma_dec_digits_all(h.words_per_event as nat);
    crate::text::lemma_dec_digits_all(h.event_count as nat);
    crate::text::lemma_dec_digits_all(h.dropped_count as nat);
    crate::text::lemma_dec_digits_all(h.rollover_count as nat);
    lemma_encode_ascii_bytes(dd);
    lemma_encode_ascii_bytes(dw);
    lemma_encode_ascii_bytes(de);
    lemma_encode_ascii_bytes(dr);
    lemma_encode_ascii_bytes(dl);
    let c1 = "core_rev="@;
    let c2 = c1 + h.core_rev@;
    let c3 = c2 + " ring="@;
    let c4 = c3 + ascii_chars(dd);
    let c5 = c4 + "x"@;
    let c6 = c5 + ascii_chars(dw);
    let c7 = c6 + "w policy="@;
    let c8 = c7 + h.ring_policy@;
    let c9 = c8 + " armed="@;
    let c10 = c9 + flag_text(h.armed);
    let c11 = c10 + " overflowed="@;
    let c12 = c11 + flag_text(h.overflowed);
    let c13 = c12 + " events="@;
    let c14 = c13 + ascii_chars(de);
    let c15 = c14 + " dropped="@;
    let c16 = c15 + ascii_chars(dr);
    let c17 = c16 + " rollovers="@;
    let c18 = c17 + ascii_chars(dl);
    let c19 = c18 + "\n  filter: "@;
    assert(t == c19 + h.filter@);
    assert(b.subrange(0, b.len() as int) =~= b);
    lemma_peel_utf8(b, c19, h.filter@);
    lemma_peel_utf8(b, c18, "\n  filter: "@);
    lemma_peel_utf8(b, c17, ascii_chars(dl));
    lemma_peel_utf8(b, c16, " rollovers="@);
    lemma_peel_utf8(b, c15, ascii_chars(dr));
    lemma_peel_utf8(b, c14, " dropped="@);
    lemma_peel_utf8(b, c13, ascii_chars(de));
    lemma_peel_utf8(b, c12, " events="@);
    lemma_peel_utf8(b, c11, flag_text(h.overflowed));
    lemma_peel_utf8(b, c10, " overflowed="@);
    lemma_peel_utf8(b, c9, flag_text(h.armed));
    lemma_peel_utf8(b, c8, " armed="@);
    lemma_peel_utf8(b, c7, h.ring_policy@);
    lemma_peel_utf8(b, c6, "w policy="@);
    lemma_peel_utf8(b, c5, ascii_chars(dw));
    lemma_peel_utf8(b, c4, "x"@);
    lemma_peel_utf8(b, c3, ascii_chars(dd));
    lemma_peel_utf8(b, c2, " ring="@);
    lemma_peel_utf8(b, c1, h.core_rev@);
    assert(encode_utf8(flag_text(h.armed)) == text_bytes(flag_text(h.armed))) by {
        assert(text_bytes("1"@) =~= lit("1"));
        assert(text_bytes("0"@) =~= lit("0"));
    }
    assert(encode_utf8(flag_text(h.overflowed)) == text_bytes(flag_text(h.overflowed))) by {
        assert(text_bytes("1"@) =~= lit("1"));
        assert(text_bytes("0"@) =~= lit("0"));
    }
    lemma_o1_front(
        b,
        h,
        encode_utf8(c1).len() as int,
        encode_utf8(c3).len() as int,
        encode_utf8(c5).len() as int,
        encode_utf8(c7).len() as int,
        encode_utf8(c8).len() as int,
    );
    lemma_o1_back(
        b,
        h,
        encode_utf8(c8).len() as int,
        encode_utf8(c10).len() as int,
        encode_utf8(c13).len() as int,
        encode_utf8(c15).len() as int,
        encode_utf8(c17).len() as int,
        encode_utf8(c19).len() as int,
    );
}

#[verifier::spinoff_prover]
proof fn lemma_o1_front(b: Seq<u8>, h: O1Header, q1: int, q3: int, q5: int, q7: int, q8: int)
    requires
        word_text(h.core_rev@),
        word_text(h.ring_policy@),
        is_prefix_at(b, 0, lit("core_rev=")),
        q1 == lit("core_rev=").len(),
        is_prefix_at(b, q1, encode_utf8(h.core_rev@)),
        is_prefix_at(b, q1 + encode_utf8(h.core_rev@).len(), lit(" ring=")),
        q3 == q1 + encode_utf8(h.core_rev@).len() + lit(" ring=").len(),
        is_prefix_at(b, q3, dec_digits(h.ring_depth as nat)),
        is_prefix_at(b, q3 + dec_digits(h.ring_depth as nat).len(), lit("x")),
        q5 == q3 + dec_digits(h.ring_depth as nat).len() + 1,
        is_prefix_at(b, q5, dec_digits(h.words_per_event as nat)),
        is_prefix_at(b, q5 + dec_digits(h.words_per_event as nat).len(), lit("w policy=")),
        q7 == q5 + dec_digits(h.words_per_event as nat).len() + lit("w policy=").len(),
        is_prefix_at(b, q7, encode_utf8(h.ring_policy@)),
        q8 == q7 + encode_utf8(h.ring_policy@).len(),
        is_prefix_at(b, q8, lit(" armed=")),
    ensures
        o1_front_at(b) == Some(
            (h.core_rev@, h.ring_depth as nat, h.words_per_event as nat, h.ring_policy@, q8),
        ),
{
    reveal_strlit(" ring=");
    reveal_strlit("x");
    reveal_strlit("w policy=");
    reveal_strlit(" armed=");
    lemma_word_then(b, q1, h.core_rev@, lit(" ring="));
    lemma_word_then(b, q7, h.ring_policy@, lit(" armed="));
    lemma_prefix_byte(b, q3 + dec_digits(h.ring_depth as nat).len(), lit("x"), 0);
    lemma_prefix_byte(b, q5 + dec_digits(h.words_per_event as nat).len(), lit("w policy="), 0);
    lemma_dec_at(b, q3, h.ring_depth as nat, 0xFFFF_FFFF);
    lemma_dec_at(b, q5, h.words_per_event as nat, 0xFFFF_FFFF);
}

#[verifier::spinoff_prover]
proof fn lemma_o1_back(
    b: Seq<u8>,
    h: O1Header,
    q8: int,
    q10: int,
    q13: int,
    q15: int,
    q17: int,
    q19: int,
)
    requires
        is_prefix_at(b, q8, lit(" armed=")),
        is_prefix_at(b, q8 + lit(" armed=").len(), text_bytes(flag_text(h.armed))),
        q10 == q8 + lit(" armed=").len() + 1,
        is_prefix_at(b, q10, lit(" overflowed=")),
        is_prefix_at(b, q10 + lit(" overflowed=").len(), text_bytes(flag_text(h.overflowed))),
        is_prefix_at(b, q10 + lit(" overflowed=").len() + 1, lit(" events=")),
        q13 == q10 + lit(" overflowed=").len() + 1 + lit(" events=").len(),
        is_prefix_at(b, q13, dec_digits(h.event_count as nat)),
        is_prefix_at(b, q13 + dec_digits(h.event_count as nat).len(), lit(" dropped=")),
        q15 == q13 + dec_digits(h.event_count as nat).len() + lit(" dropped=").len(),
        is_prefix_at(b, q15, dec_digits(h.dropped_count as nat)),
        is_prefix_at(b, q15 + dec_digits(h.dropped_count as nat).len(), lit(" rollovers=")),
        q17 == q15 + dec_digits(h.dropped_count as nat).len() + lit(" rollovers=").len(),
        is_prefix_at(b, q17, dec_digits(h.rollover_count as nat)),
        is_prefix_at(b, q17 + dec_digits(h.rollover_count as nat).len(), lit("\n  filter: ")),
        q19 == q17 + dec_digits(h.rollover_count as nat).len() + lit("\n  filter: ").len(),
        is_prefix_at(b, q19, encode_utf8(h.filter@)),
        q19 + encode_utf8(h.filter@).len() == b.len(),
    ensures
        o1_back_at(b, q8) == Some(
            (
                h.armed,
                h.overflowed,
                h.event_count as nat,
                h.dropped_count as nat,
                h.rollover_count as nat,
                h.filter@,
            ),
        ),
{
    reveal_strlit(" armed=");
    reveal_strlit(" overflowed=");
    reveal_strlit(" events=");
    reveal_strlit(" dropped=");
    reveal_strlit(" rollovers=");
    reveal_strlit("\n  filter: ");
    lemma_flag_then(b, q8, lit(" armed="), h.armed);
    lemma_flag_then(b, q10, lit(" overflowed="), h.overflowed);
    lemma_prefix_byte(b, q13 + dec_digits(h.event_count as nat).len(), lit(" dropped="), 0);
    lemma_prefix_byte(b, q15 + dec_digits(h.dropped_count as nat).len(), lit(" rollovers="), 0);
    lemma_prefix_byte(b, q17 + dec_digits(h.rollover_count as nat).len(), lit("\n  filter: "), 0);
    lemma_dec_at(b, q13, h.event_count as nat, 0xFFFF_FFFF);
    lemma_dec_at(b, q15, h.dropped_count as nat, 0xFFFF_FFFF);
    lemma_dec_at(b, q17, h.rollover_count as nat, 0xFFFF_FFFF);
    lemma_rest_text_at(b, q19, h.filter@);
}

/// Reads a `[node]` line: `addr=` with a decimal number, `type=0x` and
/// `mfg=0x` each with a hexadecimal number, and `inst=` with a decimal
/// number that ends the line.
pub open spec fn node_reading(t: Seq<char>) -> Option<(nat, nat, nat, nat)> {
    let b = text_bytes(t);
    let big = 0xFFFF_FFFFnat;
    match lit_at(b, 0, lit("\n[node]  addr=")) {
        None => None,
        Some(p1) => match dec_at(b, p1, big) {
            None => None,
            Some((addr, p2)) => match lit_at(b, p2, lit(" type=0x")) {
                None => None,
                Some(p3) => match hex_run_at(b, p3) {
                    None => None,
                    Some((ty, p4)) => match lit_at(b, p4, lit(" mfg=0x")) {
                        None => None,
                        Some(p5) => match hex_run_at(b, p5) {
                            None => None,
                            Some((mfg, p6)) => match lit_at(b, p6, lit(" inst=")) {
                                None => None,
                                Some(p7) => match dec_at(b, p7, big) {
                                    Some((inst, e)) => if e == b.len() {
                                        Some((addr, ty, mfg, inst))
                                    } else {
                                        None
                                    },
                                    None => None,
                                },
                            },
                        },
                    },
                },
            },
        },
    }
}

/// A `[node]` line reads back as its node: the address, the type id, the
/// manufacturer id and the instance number, each under its own name.
#[verifier::spinoff_prover]
#[verifier::rlimit(50)]
pub proof fn lemma_node_line_reads_back(n: HubNode)
    ensures
        node_reading(node_line(n)) == Some(
            (n.address as nat, n.node_id as nat, n.manufacturer as nat, n.instance as nat),
        ),
{
    reveal_strlit("\n[node]  addr=");
    reveal_strlit(" type=0x");
    reveal_strlit(" mfg=0x");
    reveal_strlit(" inst=");
    let t = node_line(n);
    let b = text_bytes(t);
    let d1 = dec_digits(n.address as nat);
    let h1 = hex_digits(n.node_id as nat, 2);
    let h2 = hex_digits(n.manufacturer as nat, 3);
    let d2 = dec_digits(n.instance as nat);
    let c1 = "\n[node]  addr="@;
    let c2 = c1 + ascii_chars(d1);
    let c3 = c2 + " type=0x"@;
    let c4 = c3 + ascii_chars(h1);
    let c5 = c4 + " mfg=0x"@;
    let c6 = c5 + ascii_chars(h2);
    let c7 = c6 + " inst="@;
    assert(t == c7 + ascii_chars(d2));
    assert(b.subrange(0, b.len() as int) =~= b);
    lemma_peel(b, c7, ascii_chars(d2));
    lemma_peel(b, c6, " inst="@);
    lemma_peel(b, c5, ascii_chars(h2));
    lemma_peel(b, c4, " mfg=0x"@);
    lemma_peel(b, c3, ascii_chars(h1));
    lemma_peel(b, c2, " type=0x"@);
    lemma_peel(b, c1, ascii_chars(d1));
    lemma_text_bytes_ascii(d1);
    lemma_text_bytes_ascii(h1);
    lemma_text_bytes_ascii(h2);
    lemma_text_bytes_ascii(d2);
    assert(text_bytes("\n[node]  addr="@) == lit("\n[node]  addr="));
    assert(text_bytes(" type=0x"@) == lit(" type=0x"));
    assert(text_bytes(" mfg=0x"@) == lit(" mfg=0x"));
    assert(text_bytes(" inst="@) == lit(" inst="));
    assert(b[c2.len() as int] == 32u8) by {
        lemma_prefix_byte(b, c2.len() as int, lit(" type=0x"), 0);
    }
    assert(b[c4.len() as int] == 32u8) by {
        lemma_prefix_byte(b, c4.len() as int, lit(" mfg=0x"), 0);
    }
    assert(b[c6.len() as int] == 32u8) by {
        lemma_prefix_byte(b, c6.len() as int, lit(" inst="), 0);
    }
    lemma_dec_at(b, c1.len() as int, n.address as nat, 0xFFFF_FFFFnat);
    lemma_hex_run_at(b, c3.len() as int, n.node_id as nat, 2);
    lemma_hex_run_at(b, c5.len() as int, n.manufacturer as nat, 3);
    lemma_dec_at(b, c7.len() as int, n.instance as nat, 0xFFFF_FFFFnat);
}

/// The `[node]` lines follow the hub walk: the lines of one more node are
/// those before it, then that node's own line.
pub proof fn lemma_node_lines_grow(nodes: Seq<HubNode>, i: int)
    requires
        0 <= i < nodes.len(),
    ensures
        node_lines(nodes.take(i + 1)) == node_lines(nodes.take(i)) + node_line(nodes[i]),
{
    assert(nodes.take(i + 1).drop_last() =~= nodes.take(i));
    assert(nodes.take(i + 1).last() == nodes[i]);
}

/// Reads the `[hub]` line at the head of `t`: `N=` with the node count,
/// then `n=`, `m=` and `vir_len=`, each with a decimal number.
pub open spec fn hub_reading(t: Seq<char>) -> Option<(nat, nat, nat, nat)> {
    let b = text_bytes(t);
    let big = 0xFFFF_FFFF_FFFF_FFFFnat;
    match lit_at(b, 0, lit("[hub]   N=")) {
        None => None,
        Some(p1) => match dec_at(b, p1, big) {
            None => None,
            Some((count, p2)) => match lit_at(b, p2, lit(" n=")) {
                None => None,
                Some(p3) => match dec_at(b, p3, big) {
                    None => None,
                    Some((n, p4)) => match lit_at(b, p4, lit(" m=")) {
                        None => None,
                        Some(p5) => match dec_at(b, p5, big) {
                            None => None,
                            Some((m, p6)) => match lit_at(b, p6, lit(" vir_len=")) {
                                None => None,
                                Some(p7) => match dec_at(b, p7, big) {
                                    Some((vir_len, _)) => Some((count, n, m, vir_len)),
                                    None => None,
                                },
                            },
                        },
                    },
                },
            },
        },
    }
}

/// The hub walk opens with the `[hub]` line, which reads back as the
/// number of nodes walked, then `n`, `m` and `vir_len`, each under its own
/// name; the `[node]` lines follow it.
#[verifier::spinoff_prover]
#[verifier::rlimit(50)]
pub proof fn lemma_hub_line_reads_back(n: u32, m: u32, vir_len: u32, nodes: Seq<HubNode>)
    requires
        nodes.len() <= 0xFFFF_FFFF_FFFF_FFFFnat,
    ensures
        hub_reading(enumeration_text(n, m, vir_len, nodes)) == Some(
            (nodes.len(), n as nat, m as nat, vir_len as nat),
        ),
{
    reveal_strlit("[hub]   N=");
    reveal_strlit(" n=");
    reveal_strlit(" m=");
    reveal_strlit(" vir_len=");
    reveal_strlit("\n[node]  addr=");
    let t = enumeration_text(n, m, vir_len, nodes);
    let b = text_bytes(t);
    let d0 = dec_digits(nodes.len());
    let d1 = dec_digits(n as nat);
    let d2 = dec_digits(m as nat);
    let d3 = dec_digits(vir_len as nat);
    let c1 = "[hub]   N="@;
    let c2 = c1 + ascii_chars(d0);
    let c3 = c2 + " n="@;
    let c4 = c3 + ascii_chars(d1);
    let c5 = c4 + " m="@;
    let c6 = c5 + ascii_chars(d2);
    let c7 = c6 + " vir_len="@;
    let c8 = c7 + ascii_chars(d3);
    let rest = node_lines(nodes);
    assert(t == c8 + rest);
    assert(b.subrange(0, b.len() as int) =~= b);
    lemma_peel(b, c8, rest);
    lemma_peel(b, c7, ascii_chars(d3));
    lemma_peel(b, c6, " vir_len="@);
    lemma_peel(b, c5, ascii_chars(d2));
    lemma_peel(b, c4, " m="@);
    lemma_peel(b, c3, ascii_chars(d1));
    lemma_peel(b, c2, " n="@);
    lemma_peel(b, c1, ascii_chars(d0));
    lemma_text_bytes_ascii(d0);
    lemma_text_bytes_ascii(d1);
    lemma_text_bytes_ascii(d2);
    lemma_text_bytes_ascii(d3);
    assert(text_bytes("[hub]   N="@) == lit("[hub]   N="));
    assert(text_bytes(" n="@) == lit(" n="));
    assert(text_bytes(" m="@) == lit(" m="));
    assert(text_bytes(" vir_len="@) == lit(" vir_len="));
    assert(b[c2.len() as int] == 32u8) by {
        lemma_prefix_byte(b, c2.len() as int, lit(" n="), 0);
    }
    assert(b[c4.len() as int] == 32u8) by {
        lemma_prefix_byte(b, c4.len() as int, lit(" m="), 0);
    }
    assert(b[c6.len() as int] == 32u8) by {
        lemma_prefix_byte(b, c6.len() as int, lit(" vir_len="), 0);
    }
    if nodes.len() > 0 {
        lemma_node_line_first(nodes);
        assert(b[c8.len() as int] == text_bytes(rest)[0]);
    }
    lemma_dec_at(b, c1.len() as int, nodes.len(), 0xFFFF_FFFF_FFFF_FFFFnat);
    lemma_dec_at(b, c3.len() as int, n as nat, 0xFFFF_FFFF_FFFF_FFFFnat);
    lemma_dec_at(b, c5.len() as int, m as nat, 0xFFFF_FFFF_FFFF_FFFFnat);
    lemma_dec_at(b, c7.len() as int, vir_len as nat, 0xFFFF_FFFF_FFFF_FFFFnat);
}

/// The `[node]` lines of a walk that found nodes open with a newline.
proof fn lemma_node_line_first(nodes: Seq<HubNode>)
    requires
        nodes.len() > 0,
    ensures
        node_lines(nodes).len() > 0,
        node_lines(nodes)[0] == '\n',
    decreases nodes.len(),
{
    reveal_strlit("\n[node]  addr=");
    if nodes.len() > 1 {
        lemma_node_line_first(nodes.drop_last());
    } else {
        assert(nodes.drop_last().len() == 0);
        assert(node_lines(nodes.drop_last()) =~= Seq::<char>::empty());
        assert(node_lines(nodes) =~= node_line(nodes.last()));
    }
}

/// Reads a RAW word line: `[`, the index right-aligned in its column, `]`,
/// and `0x` with a hexadecimal number that ends the line.
pub open spec fn raw_word_reading(t: Seq<char>) -> Option<(nat, nat)> {
    let b = text_bytes(t);
    match lit_at(b, 0, lit("\n  [")) {
        None => None,
        Some(p1) => match dec_at(b, space_end(b, p1), 0xFFFF_FFFF_FFFF_FFFFnat) {
            None => None,
            Some((i, p2)) => match lit_at(b, p2, lit("] 0x")) {
                None => None,
                Some(p3) => match hex_run_at(b, p3) {
                    Some((w, e)) => if e == b.len() {
                        Some((i, w))
                    } else {
                        None
                    },
                    None => None,
                },
            },
        },
    }
}

/// A RAW word line reads back as its index and its word.
#[verifier::spinoff_prover]
#[verifier::rlimit(50)]
pub proof fn lemma_raw_word_line_reads_back(i: nat, w: u32)
    requires
        i <= 0xFFFF_FFFF_FFFF_FFFFnat,
    ensures
        raw_word_reading(raw_word_line(i, w)) == Some((i, w as nat)),
{
    reveal_strlit("\n  [");
    reveal_strlit("] 0x");
    let t = raw_word_line(i, w);
    let b = text_bytes(t);
    let d = dec_digits(i);
    let pad = pad_left(d, 4);
    let h = hex_digits(w as nat, 8);
    let c1 = "\n  ["@;
    let c2 = c1 + ascii_chars(pad);
    let c3 = c2 + "] 0x"@;
    assert(t == c3 + ascii_chars(h));
    assert(b.subrange(0, b.len() as int) =~= b);
    lemma_peel(b, c3, ascii_chars(h));
    lemma_peel(b, c2, "] 0x"@);
    lemma_peel(b, c1, ascii_chars(pad));
    lemma_text_bytes_ascii(pad);
    lemma_text_bytes_ascii(h);
    assert(text_bytes("\n  ["@) == lit("\n  ["));
    assert(text_bytes("] 0x"@) == lit("] 0x"));
    assert(c1.len() == 4);
    assert(is_prefix_at(b, 4, pad));
    let sp: int = pad.len() - d.len();
    assert(pad =~= Seq::new(sp as nat, |k: int| 32u8) + d);
    assert forall|k: int| 4 <= k < 4 + sp implies #[trigger] b[k] == 32 by {
        assert(b.subrange(4, 4 + pad.len() as int) == pad);
        assert(b[k] == pad[k - 4]);
    }
    crate::text::lemma_dec_digits_all(i);
    assert(b.subrange(4, 4 + pad.len() as int) == pad);
    assert(b[4 + sp] == pad[sp]);
    assert(pad[sp] == d[0]);
    lemma_space_end(b, 4, sp);
    assert(b.subrange(4 + sp, 4 + sp + d.len()) =~= d);
    assert(b[c2.len() as int] == 93u8) by {
        lemma_prefix_byte(b, c2.len() as int, lit("] 0x"), 0);
    }
    lemma_dec_at(b, 4 + sp, i, 0xFFFF_FFFF_FFFF_FFFFnat);
    lemma_hex_run_at(b, c3.len() as int, w as nat, 8);
}

/// The word lines of a RAW render follow the words in order, each labelled
/// with its own index: the lines of one more word are those before it,
/// then that word's line under index `i`.
pub proof fn lemma_raw_word_lines_grow(words: Seq<u32>, i: int)
    requires
        0 <= i < words.len(),
    ensures
        raw_word_lines(words.take(i + 1)) == raw_word_lines(words.take(i)) + raw_word_line(
            i as nat,
            words[i],
        ),
{
    assert(words.take(i + 1).drop_last() =~= words.take(i));
    assert(words.take(i + 1).last() == words[i]);
}

/// Reads the head of a RAW render: `[region `, the region index,
/// `] UNDECODED (`, the word count, ` words)`.
pub open spec fn raw_head_reading(t: Seq<char>) -> Option<(nat, nat)> {
    let b = text_bytes(t);
    let big = 0xFFFF_FFFF_FFFF_FFFFnat;
    match lit_at(b, 0, lit("[region ")) {
        None => None,
        Some(p1) => match dec_at(b, p1, big) {
            None => None,
            Some((r, p2)) => match lit_at(b, p2, lit("] UNDECODED (")) {
                None => None,
                Some(p3) => match dec_at(b, p3, big) {
                    None => None,
                    Some((n, p4)) => match lit_at(b, p4, lit(" words)")) {
                        Some(_) => Some((r, n)),
                        None => None,
                    },
                },
            },
        },
    }
}

/// A RAW render opens by naming its region and counting its words, and
/// says UNDECODED.
#[verifier::spinoff_prover]
#[verifier::rlimit(50)]
pub proof fn lemma_raw_head_reads_back(region_index: u8, words: Seq<u32>)
    requires
        words.len() <= 0xFFFF_FFFF_FFFF_FFFFnat,
    ensures
        raw_head_reading(raw_region_text(region_index, words)) == Some(
            (region_index as nat, words.len()),
        ),
{
    reveal_strlit("[region ");
    reveal_strlit("] UNDECODED (");
    reveal_strlit(" words)");
    let t = raw_region_text(region_index, words);
    let b = text_bytes(t);
    let d1 = dec_digits(region_index as nat);
    let d2 = dec_digits(words.len());
    let c1 = "[region "@;
    let c2 = c1 + ascii_chars(d1);
    let c3 = c2 + "] UNDECODED ("@;
    let c4 = c3 + ascii_chars(d2);
    let c5 = c4 + " words)"@;
    assert(t == c5 + raw_word_lines(words));
    assert(b.subrange(0, b.len() as int) =~= b);
    lemma_peel(b, c5, raw_word_lines(words));
    lemma_peel(b, c4, " words)"@);
    lemma_peel(b, c3, ascii_chars(d2));
    lemma_peel(b, c2, "] UNDECODED ("@);
    lemma_peel(b, c1, ascii_chars(d1));
    lemma_text_bytes_ascii(d1);
    lemma_text_bytes_ascii(d2);
    assert(text_bytes("[region "@) == lit("[region "));
    assert(text_bytes("] UNDECODED ("@) == lit("] UNDECODED ("));
    assert(text_bytes(" words)"@) == lit(" words)"));
    assert(b[c2.len() as int] == 93u8) by {
        lemma_prefix_byte(b, c2.len() as int, lit("] UNDECODED ("), 0);
    }
    assert(b[c4.len() as int] == 32u8) by {
        lemma_prefix_byte(b, c4.len() as int, lit(" words)"), 0);
    }
    lemma_dec_at(b, c1.len() as int, region_index as nat, 0xFFFF_FFFF_FFFF_FFFFnat);
    lemma_dec_at(b, c3.len() as int, words.len(), 0xFFFF_FFFF_FFFF_FFFFnat);
}

} // verus!
