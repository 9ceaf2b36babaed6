//! Reading the container back: each line's reader, and the proof that each
//! gives back what the writer wrote.
use vstd::prelude::*;
use crate::capture::{CaptureModel, Encoding, FieldModel, RawRecord, RecordModel, RunMode, SchemaModel, encoding_token, run_mode_token};
use crate::capture::write::{sp, nl, dec, format_line, tool_line, deps_line, run_mode_line, instrument_line, domain_line, seed_line, header_line, schema_line, field_line, record_line, events_line, event_line};
use crate::text::{dec_digits, hex_digits};
use crate::wire::{lit, lit_at, dec_at, hex_at, text_at, text_end, line_text, word_text, is_prefix_at, pow16, lemma_prefix_split, lemma_prefix_join, lemma_prefix_byte, lemma_dec_at, lemma_hex_at, lemma_text_at, lemma_text_at_ok};

verus! {

/// A record layout whose texts can be written and read back.
pub open spec fn field_ok(f: FieldModel) -> bool {
    line_text(f.name)
}

pub open spec fn record_ok(r: RecordModel) -> bool {
    &&& line_text(r.name)
    &&& r.fields.len() <= usize::MAX
    &&& forall|i: int| 0 <= i < r.fields.len() ==> field_ok(#[trigger] r.fields[i])
}

/// A capture that the container holds: no text of it holds a newline, the
/// tool revision holds no space either, and its counts fit the machine.
pub open spec fn capture_ok(c: CaptureModel) -> bool {
    &&& word_text(c.tool_rev)
    &&& line_text(c.dirty)
    &&& line_text(c.deps)
    &&& (c.header_summary matches Some(t) ==> line_text(t))
    &&& c.schema.records.len() <= usize::MAX
    &&& forall|i: int| 0 <= i < c.schema.records.len() ==> record_ok(#[trigger] c.schema.records[i])
    &&& c.records.len() <= usize::MAX
}

pub open spec fn u16_max() -> nat {
    0xFFFF
}

pub open spec fn u32_max() -> nat {
    0xFFFF_FFFF
}

/// Reads `trace_format v{n}` and its newline.
pub open spec fn format_at(b: Seq<u8>, p: int) -> Option<(u16, int)> {
    match lit_at(b, p, lit("trace_format v")) {
        None => None,
        Some(p1) => match dec_at(b, p1, u16_max()) {
            None => None,
            Some((v, p2)) => match lit_at(b, p2, nl()) {
                None => None,
                Some(p3) => Some((v as u16, p3)),
            },
        },
    }
}

/// A number written as its decimal digits and followed by `s` reads back.
pub proof fn lemma_dec_then(b: Seq<u8>, p: int, n: nat, max: nat, s: Seq<u8>)
    requires
        n <= max,
        is_prefix_at(b, p, dec(n) + s),
        s.len() > 0,
        s[0] == 10 || s[0] == 32,
    ensures
        dec_at(b, p, max) == Some((n, p + dec(n).len())),
        is_prefix_at(b, p + dec(n).len(), s),
{
    lemma_prefix_split(b, p, dec(n), s);
    lemma_prefix_byte(b, p + dec(n).len(), s, 0);
    lemma_dec_at(b, p, n, max);
}

pub proof fn lemma_format_at(b: Seq<u8>, p: int, v: u16)
    requires
        is_prefix_at(b, p, format_line(v) + nl()),
    ensures
        format_at(b, p) == Some((v, p + (format_line(v) + nl()).len())),
{
    let l = lit("trace_format v");
    assert(format_line(v) + nl() =~= l + (dec(v as nat) + nl()));
    lemma_prefix_split(b, p, l, dec(v as nat) + nl());
    lemma_dec_then(b, p + l.len(), v as nat, u16_max(), nl());
}

/// Reads `tool lucid-host {rev} {dirty}` and its newline.
pub open spec fn tool_at(b: Seq<u8>, p: int) -> Option<(Seq<char>, Seq<char>, int)> {
    match lit_at(b, p, lit("tool lucid-host ")) {
        None => None,
        Some(p1) => match text_at(b, p1, 32) {
            None => None,
            Some((rev, q)) => match text_at(b, q + 1, 10) {
                None => None,
                Some((dirty, r)) => Some((rev, dirty, r + 1)),
            },
        },
    }
}

/// One line's text followed by `stop`, where the text holds no `stop`,
/// reads back.
pub proof fn lemma_text_then(b: Seq<u8>, p: int, t: Seq<char>, stop: u8, s: Seq<u8>)
    requires
        line_text(t),
        stop == 10 || (stop == 32 && word_text(t)),
        is_prefix_at(b, p, vstd::utf8::encode_utf8(t) + s),
        s.len() > 0,
        s[0] == stop,
    ensures
        text_at(b, p, stop) == Some((t, p + vstd::utf8::encode_utf8(t).len())),
        is_prefix_at(b, p + vstd::utf8::encode_utf8(t).len(), s),
{
    let e = vstd::utf8::encode_utf8(t);
    lemma_prefix_split(b, p, e, s);
    assert(seq![stop] + s.drop_first() =~= s);
    lemma_prefix_split(b, p + e.len(), seq![stop], s.drop_first());
    lemma_prefix_join(b, p, e, seq![stop]);
    assert(e + seq![stop] =~= e.push(stop));
    lemma_text_at(b, p, t, stop);
}

pub proof fn lemma_tool_at(b: Seq<u8>, p: int, c: CaptureModel)
    requires
        word_text(c.tool_rev),
        line_text(c.dirty),
        is_prefix_at(b, p, tool_line(c) + nl()),
    ensures
        tool_at(b, p) == Some((c.tool_rev, c.dirty, p + (tool_line(c) + nl()).len())),
{
    let l = lit("tool lucid-host ");
    let r = vstd::utf8::encode_utf8(c.tool_rev);
    let d = vstd::utf8::encode_utf8(c.dirty);
    assert(tool_line(c) + nl() =~= l + (r + (sp() + (d + nl()))));
    lemma_prefix_split(b, p, l, r + (sp() + (d + nl())));
    lemma_text_then(b, p + l.len(), c.tool_rev, 32, sp() + (d + nl()));
    lemma_prefix_split(b, p + l.len() + r.len(), sp(), d + nl());
    lemma_text_then(b, p + l.len() + r.len() + 1, c.dirty, 10, nl());
}

/// Reads `deps {deps}` and its newline.
pub open spec fn deps_at(b: Seq<u8>, p: int) -> Option<(Seq<char>, int)> {
    match lit_at(b, p, lit("deps ")) {
        None => None,
        Some(p1) => match text_at(b, p1, 10) {
            None => None,
            Some((t, q)) => Some((t, q + 1)),
        },
    }
}

pub proof fn lemma_deps_at(b: Seq<u8>, p: int, c: CaptureModel)
    requires
        line_text(c.deps),
        is_prefix_at(b, p, deps_line(c) + nl()),
    ensures
        deps_at(b, p) == Some((c.deps, p + (deps_line(c) + nl()).len())),
{
    let l = lit("deps ");
    let d = vstd::utf8::encode_utf8(c.deps);
    assert(deps_line(c) + nl() =~= l + (d + nl()));
    lemma_prefix_split(b, p, l, d + nl());
    lemma_text_then(b, p + l.len(), c.deps, 10, nl());
}

/// Reads `run_mode {SD|JTAG|SIM}` and its newline.
pub open spec fn run_mode_at(b: Seq<u8>, p: int) -> Option<(RunMode, int)> {
    match lit_at(b, p, lit("run_mode ")) {
        None => None,
        Some(p1) => if lit_at(b, p1, lit("SD") + nl()) is Some {
            Some((RunMode::Sd, p1 + 3))
        } else if lit_at(b, p1, lit("JTAG") + nl()) is Some {
            Some((RunMode::Jtag, p1 + 5))
        } else if lit_at(b, p1, lit("SIM") + nl()) is Some {
            Some((RunMode::Sim, p1 + 4))
        } else {
            None
        },
    }
}

pub proof fn lemma_run_mode_at(b: Seq<u8>, p: int, m: RunMode)
    requires
        is_prefix_at(b, p, run_mode_line(m) + nl()),
    ensures
        run_mode_at(b, p) == Some((m, p + (run_mode_line(m) + nl()).len())),
{
    reveal_strlit("run_mode ");
    reveal_strlit("SD");
    reveal_strlit("JTAG");
    reveal_strlit("SIM");
    let l = lit("run_mode ");
    let t = lit(run_mode_token(m));
    assert(run_mode_line(m) + nl() =~= l + (t + nl()));
    lemma_prefix_split(b, p, l, t + nl());
    let p1 = p + l.len();
    match m {
        RunMode::Sd => {},
        RunMode::Jtag => {
            lemma_prefix_byte(b, p1, t + nl(), 0);
            assert(lit_at(b, p1, lit("SD") + nl()) is None) by {
                if lit_at(b, p1, lit("SD") + nl()) is Some {
                    lemma_prefix_byte(b, p1, lit("SD") + nl(), 0);
                }
            }
        },
        RunMode::Sim => {
            lemma_prefix_byte(b, p1, t + nl(), 0);
            lemma_prefix_byte(b, p1, t + nl(), 1);
            assert(lit_at(b, p1, lit("SD") + nl()) is None) by {
                if lit_at(b, p1, lit("SD") + nl()) is Some {
                    lemma_prefix_byte(b, p1, lit("SD") + nl(), 1);
                }
            }
            assert(lit_at(b, p1, lit("JTAG") + nl()) is None) by {
                if lit_at(b, p1, lit("JTAG") + nl()) is Some {
                    lemma_prefix_byte(b, p1, lit("JTAG") + nl(), 0);
                }
            }
        },
    }
}

} // verus!

verus! {

pub proof fn lemma_pow16_values()
    ensures
        pow16(2) == 0x100,
        pow16(4) == 0x1_0000,
        pow16(8) == 0x1_0000_0000,
        pow16(16) == 0x1_0000_0000_0000_0000,
        pow16(32) == 0x1_0000_0000_0000_0000_0000_0000_0000_0000,
{
    reveal_with_fuel(pow16, 33);
}

/// `w` hexadecimal digits followed by `s` read back.
pub proof fn lemma_hex_then(b: Seq<u8>, p: int, n: nat, w: nat, s: Seq<u8>)
    requires
        1 <= w,
        n < pow16(w),
        is_prefix_at(b, p, hex_digits(n, w) + s),
    ensures
        hex_at(b, p, w) == Some((n, p + w)),
        hex_digits(n, w).len() == w,
        is_prefix_at(b, p + w, s),
{
    crate::wire::lemma_hex_len(n, w);
    lemma_prefix_split(b, p, hex_digits(n, w), s);
    lemma_hex_at(b, p, n, w);
}

/// Reads `instrument 0x{id:04X} version {v} proto {p}` and its newline.
pub open spec fn instrument_at(b: Seq<u8>, p: int) -> Option<(u16, u32, u16, int)> {
    match lit_at(b, p, lit("instrument 0x")) {
        None => None,
        Some(p1) => match hex_at(b, p1, 4) {
            None => None,
            Some((id, p2)) => match lit_at(b, p2, lit(" version ")) {
                None => None,
                Some(p3) => match dec_at(b, p3, u32_max()) {
                    None => None,
                    Some((v, p4)) => match lit_at(b, p4, lit(" proto ")) {
                        None => None,
                        Some(p5) => match dec_at(b, p5, u16_max()) {
                            None => None,
                            Some((pr, p6)) => match lit_at(b, p6, nl()) {
                                None => None,
                                Some(p7) => Some((id as u16, v as u32, pr as u16, p7)),
                            },
                        },
                    },
                },
            },
        },
    }
}

pub proof fn lemma_instrument_at(b: Seq<u8>, p: int, c: CaptureModel)
    requires
        is_prefix_at(b, p, instrument_line(c) + nl()),
    ensures
        instrument_at(b, p) == Some(
            (
                c.instrument_id,
                c.instrument_version,
                c.proto_version,
                p + (instrument_line(c) + nl()).len(),
            ),
        ),
{
    reveal_strlit(" version ");
    reveal_strlit(" proto ");
    lemma_pow16_values();
    let l = lit("instrument 0x");
    let h = hex_digits(c.instrument_id as nat, 4);
    let lv = lit(" version ");
    let v = dec(c.instrument_version as nat);
    let lp = lit(" proto ");
    let pr = dec(c.proto_version as nat);
    assert(instrument_line(c) + nl() =~= l + (h + (lv + (v + (lp + (pr + nl()))))));
    lemma_prefix_split(b, p, l, h + (lv + (v + (lp + (pr + nl())))));
    let p1 = p + l.len();
    lemma_hex_then(b, p1, c.instrument_id as nat, 4, lv + (v + (lp + (pr + nl()))));
    let p2 = p1 + 4;
    lemma_prefix_split(b, p2, lv, v + (lp + (pr + nl())));
    let p3 = p2 + lv.len();
    assert((lp + (pr + nl()))[0] == 32);
    lemma_dec_then(b, p3, c.instrument_version as nat, u32_max(), lp + (pr + nl()));
    let p4 = p3 + v.len();
    lemma_prefix_split(b, p4, lp, pr + nl());
    let p5 = p4 + lp.len();
    lemma_dec_then(b, p5, c.proto_version as nat, u16_max(), nl());
}

/// Reads `timestamp_domain_hz {hz}` and its newline.
pub open spec fn domain_at(b: Seq<u8>, p: int) -> Option<(u32, int)> {
    match lit_at(b, p, lit("timestamp_domain_hz ")) {
        None => None,
        Some(p1) => match dec_at(b, p1, u32_max()) {
            None => None,
            Some((v, p2)) => match lit_at(b, p2, nl()) {
                None => None,
                Some(p3) => Some((v as u32, p3)),
            },
        },
    }
}

pub proof fn lemma_domain_at(b: Seq<u8>, p: int, hz: u32)
    requires
        is_prefix_at(b, p, domain_line(hz) + nl()),
    ensures
        domain_at(b, p) == Some((hz, p + (domain_line(hz) + nl()).len())),
{
    let l = lit("timestamp_domain_hz ");
    assert(domain_line(hz) + nl() =~= l + (dec(hz as nat) + nl()));
    lemma_prefix_split(b, p, l, dec(hz as nat) + nl());
    lemma_dec_then(b, p + l.len(), hz as nat, u32_max(), nl());
}

/// Reads `seed none` or `seed 0x{seed:08X}`, and its newline.
pub open spec fn seed_at(b: Seq<u8>, p: int) -> Option<(Option<u32>, int)> {
    match lit_at(b, p, lit("seed none") + nl()) {
        Some(q) => Some((None, q)),
        None => match lit_at(b, p, lit("seed 0x")) {
            None => None,
            Some(p1) => match hex_at(b, p1, 8) {
                None => None,
                Some((s, p2)) => match lit_at(b, p2, nl()) {
                    None => None,
                    Some(p3) => Some((Some(s as u32), p3)),
                },
            },
        },
    }
}

pub proof fn lemma_seed_at(b: Seq<u8>, p: int, seed: Option<u32>)
    requires
        is_prefix_at(b, p, seed_line(seed) + nl()),
    ensures
        seed_at(b, p) == Some((seed, p + (seed_line(seed) + nl()).len())),
{
    reveal_strlit("seed none");
    reveal_strlit("seed 0x");
    lemma_pow16_values();
    match seed {
        None => {},
        Some(s) => {
            let l = lit("seed 0x");
            let h = hex_digits(s as nat, 8);
            assert(seed_line(seed) + nl() =~= l + (h + nl()));
            lemma_prefix_split(b, p, l, h + nl());
            assert(lit_at(b, p, lit("seed none") + nl()) is None) by {
                if lit_at(b, p, lit("seed none") + nl()) is Some {
                    lemma_prefix_byte(b, p, lit("seed none") + nl(), 5);
                    lemma_prefix_byte(b, p, l, 5);
                }
            }
            lemma_hex_then(b, p + l.len(), s as nat, 8, nl());
        },
    }
}

/// Reads `header` or `header {summary}`, and its newline.
pub open spec fn header_at(b: Seq<u8>, p: int) -> Option<(Option<Seq<char>>, int)> {
    match lit_at(b, p, lit("header") + nl()) {
        Some(q) => Some((None, q)),
        None => match lit_at(b, p, lit("header ")) {
            None => None,
            Some(p1) => match text_at(b, p1, 10) {
                None => None,
                Some((t, q)) => Some((Some(t), q + 1)),
            },
        },
    }
}

pub proof fn lemma_header_at(b: Seq<u8>, p: int, h: Option<Seq<char>>)
    requires
        h matches Some(t) ==> line_text(t),
        is_prefix_at(b, p, header_line(h) + nl()),
    ensures
        header_at(b, p) == Some((h, p + (header_line(h) + nl()).len())),
{
    reveal_strlit("header");
    reveal_strlit("header ");
    match h {
        None => {},
        Some(t) => {
            let l = lit("header ");
            let e = vstd::utf8::encode_utf8(t);
            assert(header_line(h) + nl() =~= l + (e + nl()));
            lemma_prefix_split(b, p, l, e + nl());
            assert(lit_at(b, p, lit("header") + nl()) is None) by {
                if lit_at(b, p, lit("header") + nl()) is Some {
                    lemma_prefix_byte(b, p, lit("header") + nl(), 6);
                    lemma_prefix_byte(b, p, l, 6);
                }
            }
            lemma_text_then(b, p + l.len(), t, 10, nl());
        },
    }
}

} // verus!

verus! {

/// Reads `schema {version} 0x{hash:016X} {clock} {kinds}` and its newline.
pub open spec fn schema_at(b: Seq<u8>, p: int) -> Option<(u16, u64, u32, nat, int)> {
    match lit_at(b, p, lit("schema ")) {
        None => None,
        Some(p1) => match dec_at(b, p1, u16_max()) {
            None => None,
            Some((v, p2)) => match lit_at(b, p2, lit(" 0x")) {
                None => None,
                Some(p3) => match hex_at(b, p3, 16) {
                    None => None,
                    Some((h, p4)) => match lit_at(b, p4, sp()) {
                        None => None,
                        Some(p5) => match dec_at(b, p5, u32_max()) {
                            None => None,
                            Some((clk, p6)) => match lit_at(b, p6, sp()) {
                                None => None,
                                Some(p7) => match dec_at(b, p7, usize::MAX as nat) {
                                    None => None,
                                    Some((n, p8)) => match lit_at(b, p8, nl()) {
                                        None => None,
                                        Some(p9) => Some((v as u16, h as u64, clk as u32, n, p9)),
                                    },
                                },
                            },
                        },
                    },
                },
            },
        },
    }
}

pub proof fn lemma_schema_at(b: Seq<u8>, p: int, s: SchemaModel)
    requires
        s.records.len() <= usize::MAX,
        is_prefix_at(b, p, schema_line(s) + nl()),
    ensures
        schema_at(b, p) == Some(
            (
                s.schema_version,
                s.schema_hash,
                s.core_clock_hz,
                s.records.len(),
                p + (schema_line(s) + nl()).len(),
            ),
        ),
{
    reveal_strlit(" 0x");
    lemma_pow16_values();
    let l = lit("schema ");
    let v = dec(s.schema_version as nat);
    let lx = lit(" 0x");
    let h = hex_digits(s.schema_hash as nat, 16);
    let c = dec(s.core_clock_hz as nat);
    let n = dec(s.records.len());
    assert(schema_line(s) + nl() =~= l + (v + (lx + (h + (sp() + (c + (sp() + (n + nl()))))))));
    lemma_prefix_split(b, p, l, v + (lx + (h + (sp() + (c + (sp() + (n + nl())))))));
    let p1 = p + l.len();
    assert((lx + (h + (sp() + (c + (sp() + (n + nl()))))))[0] == 32);
    lemma_dec_then(
        b,
        p1,
        s.schema_version as nat,
        u16_max(),
        lx + (h + (sp() + (c + (sp() + (n + nl()))))),
    );
    let p2 = p1 + v.len();
    lemma_prefix_split(b, p2, lx, h + (sp() + (c + (sp() + (n + nl())))));
    let p3 = p2 + lx.len();
    lemma_hex_then(b, p3, s.schema_hash as nat, 16, sp() + (c + (sp() + (n + nl()))));
    let p4 = p3 + 16;
    lemma_prefix_split(b, p4, sp(), c + (sp() + (n + nl())));
    let p5 = p4 + 1;
    lemma_dec_then(b, p5, s.core_clock_hz as nat, u32_max(), sp() + (n + nl()));
    let p6 = p5 + c.len();
    lemma_prefix_split(b, p6, sp(), n + nl());
    let p7 = p6 + 1;
    lemma_dec_then(b, p7, s.records.len(), usize::MAX as nat, nl());
}

/// Reads an encoding's token and the space after it.
pub open spec fn encoding_at(b: Seq<u8>, p: int) -> Option<(Encoding, int)> {
    if lit_at(b, p, lit("U") + sp()) is Some {
        Some((Encoding::U, p + 2))
    } else if lit_at(b, p, lit("HEX") + sp()) is Some {
        Some((Encoding::Hex, p + 4))
    } else if lit_at(b, p, lit("ENUM") + sp()) is Some {
        Some((Encoding::Enum, p + 5))
    } else {
        None
    }
}

pub proof fn lemma_encoding_at(b: Seq<u8>, p: int, e: Encoding)
    requires
        is_prefix_at(b, p, lit(encoding_token(e)) + sp()),
    ensures
        encoding_at(b, p) == Some((e, p + (lit(encoding_token(e)) + sp()).len())),
{
    reveal_strlit("U");
    reveal_strlit("HEX");
    reveal_strlit("ENUM");
    let t = lit(encoding_token(e)) + sp();
    lemma_prefix_byte(b, p, t, 0);
    match e {
        Encoding::U => {},
        Encoding::Hex => {
            assert(lit_at(b, p, lit("U") + sp()) is None) by {
                if lit_at(b, p, lit("U") + sp()) is Some {
                    lemma_prefix_byte(b, p, lit("U") + sp(), 0);
                }
            }
        },
        Encoding::Enum => {
            assert(lit_at(b, p, lit("U") + sp()) is None) by {
                if lit_at(b, p, lit("U") + sp()) is Some {
                    lemma_prefix_byte(b, p, lit("U") + sp(), 0);
                }
            }
            assert(lit_at(b, p, lit("HEX") + sp()) is None) by {
                if lit_at(b, p, lit("HEX") + sp()) is Some {
                    lemma_prefix_byte(b, p, lit("HEX") + sp(), 0);
                }
            }
        },
    }
}

/// Reads `field {offset} {width} {encoding} {name}` and its newline.
pub open spec fn field_at(b: Seq<u8>, p: int) -> Option<(FieldModel, int)> {
    match lit_at(b, p, lit("field ")) {
        None => None,
        Some(p1) => match dec_at(b, p1, u16_max()) {
            None => None,
            Some((off, p2)) => match lit_at(b, p2, sp()) {
                None => None,
                Some(p3) => match dec_at(b, p3, u16_max()) {
                    None => None,
                    Some((w, p4)) => match lit_at(b, p4, sp()) {
                        None => None,
                        Some(p5) => match encoding_at(b, p5) {
                            None => None,
                            Some((e, p6)) => match text_at(b, p6, 10) {
                                None => None,
                                Some((name, q)) => Some(
                                    (
                                        FieldModel {
                                            name,
                                            offset: off as u16,
                                            width: w as u16,
                                            encoding: e,
                                        },
                                        q + 1,
                                    ),
                                ),
                            },
                        },
                    },
                },
            },
        },
    }
}

pub proof fn lemma_field_at(b: Seq<u8>, p: int, f: FieldModel)
    requires
        field_ok(f),
        is_prefix_at(b, p, field_line(f) + nl()),
    ensures
        field_at(b, p) == Some((f, p + (field_line(f) + nl()).len())),
{
    let l = lit("field ");
    let o = dec(f.offset as nat);
    let w = dec(f.width as nat);
    let t = lit(encoding_token(f.encoding)) + sp();
    let n = vstd::utf8::encode_utf8(f.name);
    assert(field_line(f) + nl() =~= l + (o + (sp() + (w + (sp() + (t + (n + nl())))))));
    lemma_prefix_split(b, p, l, o + (sp() + (w + (sp() + (t + (n + nl()))))));
    let p1 = p + l.len();
    lemma_dec_then(b, p1, f.offset as nat, u16_max(), sp() + (w + (sp() + (t + (n + nl())))));
    let p2 = p1 + o.len();
    lemma_prefix_split(b, p2, sp(), w + (sp() + (t + (n + nl()))));
    let p3 = p2 + 1;
    lemma_dec_then(b, p3, f.width as nat, u16_max(), sp() + (t + (n + nl())));
    let p4 = p3 + w.len();
    lemma_prefix_split(b, p4, sp(), t + (n + nl()));
    let p5 = p4 + 1;
    lemma_prefix_split(b, p5, t, n + nl());
    lemma_encoding_at(b, p5, f.encoding);
    let p6 = p5 + t.len();
    lemma_text_then(b, p6, f.name, 10, nl());
}

/// Reads `n` field lines.
pub open spec fn fields_at(b: Seq<u8>, p: int, n: nat) -> Option<(Seq<FieldModel>, int)>
    decreases n,
{
    if n == 0 {
        Some((Seq::empty(), p))
    } else {
        match field_at(b, p) {
            None => None,
            Some((f, q)) => match fields_at(b, q, (n - 1) as nat) {
                None => None,
                Some((fs, r)) => Some((seq![f] + fs, r)),
            },
        }
    }
}

pub proof fn lemma_fields_at(b: Seq<u8>, p: int, fs: Seq<FieldModel>)
    requires
        forall|i: int| 0 <= i < fs.len() ==> field_ok(#[trigger] fs[i]),
        is_prefix_at(b, p, crate::capture::write::fields_text(fs)),
    ensures
        fields_at(b, p, fs.len()) == Some((fs, p + crate::capture::write::fields_text(fs).len())),
    decreases fs.len(),
{
    if fs.len() > 0 {
        let m = fs.map_values(|f: FieldModel| field_line(f) + nl());
        let head = field_line(fs[0]) + nl();
        assert(m.drop_first() =~= fs.drop_first().map_values(|f: FieldModel| field_line(f) + nl()));
        assert(crate::capture::write::fields_text(fs) == head + crate::capture::write::fields_text(
            fs.drop_first(),
        ));
        lemma_prefix_split(b, p, head, crate::capture::write::fields_text(fs.drop_first()));
        assert(field_ok(fs[0]));
        lemma_field_at(b, p, fs[0]);
        assert forall|i: int| 0 <= i < fs.drop_first().len() implies field_ok(
            #[trigger] fs.drop_first()[i],
        ) by {
            assert(fs.drop_first()[i] == fs[i + 1]);
        }
        lemma_fields_at(b, p + head.len(), fs.drop_first());
        assert(seq![fs[0]] + fs.drop_first() =~= fs);
    } else {
        assert(crate::capture::write::fields_text(fs) =~= Seq::<u8>::empty());
    }
}

} // verus!

verus! {

/// Reads `record {tag} {fields} {name}` and its newline.
pub open spec fn record_line_at(b: Seq<u8>, p: int) -> Option<(u8, nat, Seq<char>, int)> {
    match lit_at(b, p, lit("record ")) {
        None => None,
        Some(p1) => match dec_at(b, p1, 0xFF) {
            None => None,
            Some((tag, p2)) => match lit_at(b, p2, sp()) {
                None => None,
                Some(p3) => match dec_at(b, p3, usize::MAX as nat) {
                    None => None,
                    Some((n, p4)) => match lit_at(b, p4, sp()) {
                        None => None,
                        Some(p5) => match text_at(b, p5, 10) {
                            None => None,
                            Some((name, q)) => Some((tag as u8, n, name, q + 1)),
                        },
                    },
                },
            },
        },
    }
}

/// Reads a record layout: its record line, then its field lines.
pub open spec fn record_at(b: Seq<u8>, p: int) -> Option<(RecordModel, int)> {
    match record_line_at(b, p) {
        None => None,
        Some((tag, n, name, q)) => match fields_at(b, q, n) {
            None => None,
            Some((fs, r)) => Some((RecordModel { tag, name, fields: fs }, r)),
        },
    }
}

pub proof fn lemma_record_at(b: Seq<u8>, p: int, r: RecordModel)
    requires
        record_ok(r),
        is_prefix_at(b, p, crate::capture::write::record_text(r)),
    ensures
        record_at(b, p) == Some((r, p + crate::capture::write::record_text(r).len())),
{
    let l = lit("record ");
    let t = dec(r.tag as nat);
    let n = dec(r.fields.len());
    let nm = vstd::utf8::encode_utf8(r.name);
    let ft = crate::capture::write::fields_text(r.fields);
    assert(crate::capture::write::record_text(r) =~= (l + (t + (sp() + (n + (sp() + (nm + nl())))))) + ft);
    lemma_prefix_split(b, p, l + (t + (sp() + (n + (sp() + (nm + nl()))))), ft);
    lemma_prefix_split(b, p, l, t + (sp() + (n + (sp() + (nm + nl())))));
    let p1 = p + l.len();
    lemma_dec_then(b, p1, r.tag as nat, 0xFF, sp() + (n + (sp() + (nm + nl()))));
    let p2 = p1 + t.len();
    lemma_prefix_split(b, p2, sp(), n + (sp() + (nm + nl())));
    let p3 = p2 + 1;
    lemma_dec_then(b, p3, r.fields.len(), usize::MAX as nat, sp() + (nm + nl()));
    let p4 = p3 + n.len();
    lemma_prefix_split(b, p4, sp(), nm + nl());
    let p5 = p4 + 1;
    lemma_text_then(b, p5, r.name, 10, nl());
    lemma_fields_at(b, p + (l + (t + (sp() + (n + (sp() + (nm + nl())))))).len(), r.fields);
}

/// Reads `n` record layouts.
pub open spec fn records_at(b: Seq<u8>, p: int, n: nat) -> Option<(Seq<RecordModel>, int)>
    decreases n,
{
    if n == 0 {
        Some((Seq::empty(), p))
    } else {
        match record_at(b, p) {
            None => None,
            Some((r, q)) => match records_at(b, q, (n - 1) as nat) {
                None => None,
                Some((rs, e)) => Some((seq![r] + rs, e)),
            },
        }
    }
}

pub proof fn lemma_records_at(b: Seq<u8>, p: int, rs: Seq<RecordModel>)
    requires
        forall|i: int| 0 <= i < rs.len() ==> record_ok(#[trigger] rs[i]),
        is_prefix_at(b, p, crate::capture::write::records_text(rs)),
    ensures
        records_at(b, p, rs.len()) == Some(
            (rs, p + crate::capture::write::records_text(rs).len()),
        ),
    decreases rs.len(),
{
    if rs.len() > 0 {
        let m = rs.map_values(|r: RecordModel| crate::capture::write::record_text(r));
        let head = crate::capture::write::record_text(rs[0]);
        assert(m.drop_first() =~= rs.drop_first().map_values(
            |r: RecordModel| crate::capture::write::record_text(r),
        ));
        assert(crate::capture::write::records_text(rs) == head
            + crate::capture::write::records_text(rs.drop_first()));
        lemma_prefix_split(b, p, head, crate::capture::write::records_text(rs.drop_first()));
        assert(record_ok(rs[0]));
        lemma_record_at(b, p, rs[0]);
        assert forall|i: int| 0 <= i < rs.drop_first().len() implies record_ok(
            #[trigger] rs.drop_first()[i],
        ) by {
            assert(rs.drop_first()[i] == rs[i + 1]);
        }
        lemma_records_at(b, p + head.len(), rs.drop_first());
        assert(seq![rs[0]] + rs.drop_first() =~= rs);
    } else {
        assert(crate::capture::write::records_text(rs) =~= Seq::<u8>::empty());
    }
}

/// Reads `events {count}` and its newline.
pub open spec fn events_line_at(b: Seq<u8>, p: int) -> Option<(nat, int)> {
    match lit_at(b, p, lit("events ")) {
        None => None,
        Some(p1) => match dec_at(b, p1, usize::MAX as nat) {
            None => None,
            Some((n, p2)) => match lit_at(b, p2, nl()) {
                None => None,
                Some(p3) => Some((n, p3)),
            },
        },
    }
}

pub proof fn lemma_events_line_at(b: Seq<u8>, p: int, n: nat)
    requires
        n <= usize::MAX,
        is_prefix_at(b, p, events_line(n) + nl()),
    ensures
        events_line_at(b, p) == Some((n, p + (events_line(n) + nl()).len())),
{
    let l = lit("events ");
    assert(events_line(n) + nl() =~= l + (dec(n) + nl()));
    lemma_prefix_split(b, p, l, dec(n) + nl());
    lemma_dec_then(b, p + l.len(), n, usize::MAX as nat, nl());
}

/// Reads one record line: `{tag:02X} {timestamp:08X} {bits:04X} {payload:032X}`.
pub open spec fn event_at(b: Seq<u8>, p: int) -> Option<(RawRecord, int)> {
    match hex_at(b, p, 2) {
        None => None,
        Some((tag, p1)) => match lit_at(b, p1, sp()) {
            None => None,
            Some(p2) => match hex_at(b, p2, 8) {
                None => None,
                Some((ts, p3)) => match lit_at(b, p3, sp()) {
                    None => None,
                    Some(p4) => match hex_at(b, p4, 4) {
                        None => None,
                        Some((bits, p5)) => match lit_at(b, p5, sp()) {
                            None => None,
                            Some(p6) => match hex_at(b, p6, 32) {
                                None => None,
                                Some((payload, p7)) => match lit_at(b, p7, nl()) {
                                    None => None,
                                    Some(p8) => Some(
                                        (
                                            RawRecord {
                                                tag: tag as u8,
                                                timestamp: ts as u32,
                                                payload: payload as u128,
                                                payload_bits: bits as u16,
                                            },
                                            p8,
                                        ),
                                    ),
                                },
                            },
                        },
                    },
                },
            },
        },
    }
}

pub proof fn lemma_event_at(b: Seq<u8>, p: int, e: RawRecord)
    requires
        is_prefix_at(b, p, event_line(e) + nl()),
    ensures
        event_at(b, p) == Some((e, p + (event_line(e) + nl()).len())),
{
    lemma_pow16_values();
    let t = hex_digits(e.tag as nat, 2);
    let ts = hex_digits(e.timestamp as nat, 8);
    let bi = hex_digits(e.payload_bits as nat, 4);
    let pl = hex_digits(e.payload as nat, 32);
    assert(event_line(e) + nl() =~= t + (sp() + (ts + (sp() + (bi + (sp() + (pl + nl())))))));
    lemma_hex_then(b, p, e.tag as nat, 2, sp() + (ts + (sp() + (bi + (sp() + (pl + nl()))))));
    lemma_prefix_split(b, p + 2, sp(), ts + (sp() + (bi + (sp() + (pl + nl())))));
    lemma_hex_then(b, p + 3, e.timestamp as nat, 8, sp() + (bi + (sp() + (pl + nl()))));
    lemma_prefix_split(b, p + 11, sp(), bi + (sp() + (pl + nl())));
    lemma_hex_then(b, p + 12, e.payload_bits as nat, 4, sp() + (pl + nl()));
    lemma_prefix_split(b, p + 16, sp(), pl + nl());
    lemma_hex_then(b, p + 17, e.payload as nat, 32, nl());
}

/// Reads `n` record lines.
pub open spec fn events_at(b: Seq<u8>, p: int, n: nat) -> Option<(Seq<RawRecord>, int)>
    decreases n,
{
    if n == 0 {
        Some((Seq::empty(), p))
    } else {
        match event_at(b, p) {
            None => None,
            Some((e, q)) => match events_at(b, q, (n - 1) as nat) {
                None => None,
                Some((es, r)) => Some((seq![e] + es, r)),
            },
        }
    }
}

pub proof fn lemma_events_at(b: Seq<u8>, p: int, es: Seq<RawRecord>)
    requires
        is_prefix_at(b, p, crate::capture::write::events_text(es)),
    ensures
        events_at(b, p, es.len()) == Some((es, p + crate::capture::write::events_text(es).len())),
    decreases es.len(),
{
    if es.len() > 0 {
        let m = es.map_values(|e: RawRecord| event_line(e) + nl());
        let head = event_line(es[0]) + nl();
        assert(m.drop_first() =~= es.drop_first().map_values(|e: RawRecord| event_line(e) + nl()));
        assert(crate::capture::write::events_text(es) == head + crate::capture::write::events_text(
            es.drop_first(),
        ));
        lemma_prefix_split(b, p, head, crate::capture::write::events_text(es.drop_first()));
        lemma_event_at(b, p, es[0]);
        lemma_events_at(b, p + head.len(), es.drop_first());
        assert(seq![es[0]] + es.drop_first() =~= es);
    } else {
        assert(crate::capture::write::events_text(es) =~= Seq::<u8>::empty());
    }
}

} // verus!

verus! {

/// What the header lines hold: the capture with no record layouts and no
/// records yet, the number of record layouts, and where the header ends.
#[verifier::opaque]
pub open spec fn head_at(b: Seq<u8>) -> Option<(CaptureModel, nat, int)> {
    match lit_at(b, 0, crate::capture::write::gate_line() + nl()) {
        None => None,
        Some(p1) => match format_at(b, p1) {
            None => None,
            Some((fv, p2)) => match tool_at(b, p2) {
                None => None,
                Some((rev, dirty, p3)) => match deps_at(b, p3) {
                    None => None,
                    Some((deps, p4)) => match run_mode_at(b, p4) {
                        None => None,
                        Some((m, p5)) => match instrument_at(b, p5) {
                            None => None,
                            Some((id, ver, pr, p6)) => match domain_at(b, p6) {
                                None => None,
                                Some((hz, p7)) => match seed_at(b, p7) {
                                    None => None,
                                    Some((seed, p8)) => match header_at(b, p8) {
                                        None => None,
                                        Some((h, p9)) => match schema_at(b, p9) {
                                            None => None,
                                            Some((sv, hash, clk, n, p10)) => Some(
                                                (
                                                    CaptureModel {
                                                        tool_rev: rev,
                                                        dirty,
                                                        deps,
                                                        run_mode: m,
                                                        instrument_id: id,
                                                        instrument_version: ver,
                                                        proto_version: pr,
                                                        core_clock_hz: hz,
                                                        seed,
                                                        header_summary: h,
                                                        schema: SchemaModel {
                                                            format_version: fv,
                                                            schema_version: sv,
                                                            schema_hash: hash,
                                                            core_clock_hz: clk,
                                                            records: Seq::empty(),
                                                        },
                                                        records: Seq::empty(),
                                                    },
                                                    n,
                                                    p10,
                                                ),
                                            ),
                                        },
                                    },
                                },
                            },
                        },
                    },
                },
            },
        },
    }
}

/// The container a byte string holds, read line by line.
pub open spec fn capture_at(b: Seq<u8>) -> Option<CaptureModel> {
    match head_at(b) {
        None => None,
        Some((h, n, p)) => match records_at(b, p, n) {
            None => None,
            Some((rs, p2)) => match events_line_at(b, p2) {
                None => None,
                Some((ne, p3)) => match events_at(b, p3, ne) {
                    None => None,
                    Some((es, p4)) => match lit_at(
                        b,
                        p4,
                        crate::capture::write::end_line() + nl(),
                    ) {
                        None => None,
                        Some(_) => Some(
                            CaptureModel {
                                schema: SchemaModel { records: rs, ..h.schema },
                                records: es,
                                ..h
                            },
                        ),
                    },
                },
            },
        },
    }
}

/// The header with its record layouts and records set aside.
pub open spec fn bare(c: CaptureModel) -> CaptureModel {
    CaptureModel {
        schema: SchemaModel { records: Seq::empty(), ..c.schema },
        records: Seq::empty(),
        ..c
    }
}

#[verifier::spinoff_prover]
#[verifier::rlimit(100)]
pub proof fn lemma_head_at(b: Seq<u8>, c: CaptureModel)
    requires
        capture_ok(c),
        is_prefix_at(b, 0, crate::capture::write::joined(crate::capture::write::header_lines(c))),
    ensures
        head_at(b) == Some(
            (
                bare(c),
                c.schema.records.len(),
                crate::capture::write::joined(crate::capture::write::header_lines(c)).len() as int,
            ),
        ),
{
    reveal(head_at);
    let hl = crate::capture::write::header_lines(c);
    crate::capture::write::lemma_joined_ten(hl);
    let l0 = hl[0] + nl();
    let l1 = hl[1] + nl();
    let l2 = hl[2] + nl();
    let l3 = hl[3] + nl();
    let l4 = hl[4] + nl();
    let l5 = hl[5] + nl();
    let l6 = hl[6] + nl();
    let l7 = hl[7] + nl();
    let l8 = hl[8] + nl();
    let l9 = hl[9] + nl();
    assert(crate::capture::write::joined(hl) =~= l0 + (l1 + (l2 + (l3 + (l4 + (l5 + (l6 + (l7 + (
    l8 + l9)))))))));
    lemma_prefix_split(b, 0, l0, l1 + (l2 + (l3 + (l4 + (l5 + (l6 + (l7 + (l8 + l9))))))));
    let p1 = l0.len() as int;
    lemma_prefix_split(b, p1, l1, l2 + (l3 + (l4 + (l5 + (l6 + (l7 + (l8 + l9)))))));
    lemma_format_at(b, p1, c.schema.format_version);
    let p2 = p1 + l1.len();
    lemma_prefix_split(b, p2, l2, l3 + (l4 + (l5 + (l6 + (l7 + (l8 + l9))))));
    lemma_tool_at(b, p2, c);
    let p3 = p2 + l2.len();
    lemma_prefix_split(b, p3, l3, l4 + (l5 + (l6 + (l7 + (l8 + l9)))));
    lemma_deps_at(b, p3, c);
    let p4 = p3 + l3.len();
    lemma_prefix_split(b, p4, l4, l5 + (l6 + (l7 + (l8 + l9))));
    lemma_run_mode_at(b, p4, c.run_mode);
    let p5 = p4 + l4.len();
    lemma_prefix_split(b, p5, l5, l6 + (l7 + (l8 + l9)));
    lemma_instrument_at(b, p5, c);
    let p6 = p5 + l5.len();
    lemma_prefix_split(b, p6, l6, l7 + (l8 + l9));
    lemma_domain_at(b, p6, c.core_clock_hz);
    let p7 = p6 + l6.len();
    lemma_prefix_split(b, p7, l7, l8 + l9);
    lemma_seed_at(b, p7, c.seed);
    let p8 = p7 + l7.len();
    lemma_prefix_split(b, p8, l8, l9);
    lemma_header_at(b, p8, c.header_summary);
    let p9 = p8 + l8.len();
    lemma_schema_at(b, p9, c.schema);
}

/// The container reads back as written.
#[verifier::spinoff_prover]
#[verifier::rlimit(100)]
pub proof fn lemma_capture_at(c: CaptureModel)
    requires
        capture_ok(c),
    ensures
        capture_at(crate::capture::write::capture_bytes(c)) == Some(c),
{
    let b = crate::capture::write::capture_bytes(c);
    let hj = crate::capture::write::joined(crate::capture::write::header_lines(c));
    let rt = crate::capture::write::records_text(c.schema.records);
    let el = events_line(c.records.len()) + nl();
    let et = crate::capture::write::events_text(c.records);
    let en = crate::capture::write::end_line() + nl();
    assert(b =~= hj + (rt + (el + (et + en))));
    assert(b.subrange(0, b.len() as int) =~= b);
    assert(is_prefix_at(b, 0, hj + (rt + (el + (et + en)))));
    lemma_prefix_split(b, 0, hj, rt + (el + (et + en)));
    lemma_head_at(b, c);
    let p = hj.len() as int;
    lemma_prefix_split(b, p, rt, el + (et + en));
    lemma_records_at(b, p, c.schema.records);
    let p2 = p + rt.len();
    lemma_prefix_split(b, p2, el, et + en);
    lemma_events_line_at(b, p2, c.records.len());
    let p3 = p2 + el.len();
    lemma_prefix_split(b, p3, et, en);
    lemma_events_at(b, p3, c.records);
}

} // verus!

verus! {

pub proof fn lemma_fields_ok(b: Seq<u8>, p: int, n: nat)
    ensures
        fields_at(b, p, n) matches Some((fs, _)) ==> fs.len() == n && forall|i: int|
            0 <= i < fs.len() ==> field_ok(#[trigger] fs[i]),
    decreases n,
{
    if n > 0 {
        if let Some((f, q)) = field_at(b, p) {
            lemma_fields_ok(b, q, (n - 1) as nat);
            if let Some((fs, r)) = fields_at(b, q, (n - 1) as nat) {
                let p6 = match lit_at(b, p, lit("field ")) {
                    Some(p1) => match dec_at(b, p1, u16_max()) {
                        Some((off, p2)) => match lit_at(b, p2, sp()) {
                            Some(p3) => match dec_at(b, p3, u16_max()) {
                                Some((w, p4)) => match lit_at(b, p4, sp()) {
                                    Some(p5) => match encoding_at(b, p5) {
                                        Some((e, p6)) => p6,
                                        None => 0,
                                    },
                                    None => 0,
                                },
                                None => 0,
                            },
                            None => 0,
                        },
                        None => 0,
                    },
                    None => 0,
                };
                lemma_text_at_ok(b, p6, 10);
                let all = seq![f] + fs;
                assert forall|i: int| 0 <= i < all.len() implies field_ok(#[trigger] all[i]) by {
                    if i > 0 {
                        assert(all[i] == fs[i - 1]);
                    }
                }
            }
        }
    }
}

pub proof fn lemma_records_ok(b: Seq<u8>, p: int, n: nat)
    ensures
        records_at(b, p, n) matches Some((rs, _)) ==> rs.len() == n && forall|i: int|
            0 <= i < rs.len() ==> record_ok(#[trigger] rs[i]),
    decreases n,
{
    if n > 0 {
        if let Some((r, q)) = record_at(b, p) {
            lemma_records_ok(b, q, (n - 1) as nat);
            if let Some((rs, e)) = records_at(b, q, (n - 1) as nat) {
                if let Some((tag, nf, name, q1)) = record_line_at(b, p) {
                    lemma_fields_ok(b, q1, nf);
                    let p5 = match lit_at(b, p, lit("record ")) {
                        Some(p1) => match dec_at(b, p1, 0xFF) {
                            Some((tg, p2)) => match lit_at(b, p2, sp()) {
                                Some(p3) => match dec_at(b, p3, usize::MAX as nat) {
                                    Some((m, p4)) => match lit_at(b, p4, sp()) {
                                        Some(p5) => p5,
                                        None => 0,
                                    },
                                    None => 0,
                                },
                                None => 0,
                            },
                            None => 0,
                        },
                        None => 0,
                    };
                    lemma_text_at_ok(b, p5, 10);
                }
                let all = seq![r] + rs;
                assert forall|i: int| 0 <= i < all.len() implies record_ok(#[trigger] all[i]) by {
                    if i > 0 {
                        assert(all[i] == rs[i - 1]);
                    }
                }
            }
        }
    }
}

pub proof fn lemma_events_len(b: Seq<u8>, p: int, n: nat)
    ensures
        events_at(b, p, n) matches Some((es, _)) ==> es.len() == n,
    decreases n,
{
    if n > 0 {
        if let Some((e, q)) = event_at(b, p) {
            lemma_events_len(b, q, (n - 1) as nat);
        }
    }
}

/// What the reader reads is a capture the container holds.
#[verifier::spinoff_prover]
#[verifier::rlimit(50)]
pub proof fn lemma_parsed_ok(b: Seq<u8>)
    ensures
        capture_at(b) matches Some(c) ==> capture_ok(c),
{
    if let Some(c) = capture_at(b) {
        let (h, n, p) = head_at(b).unwrap();
        lemma_records_ok(b, p, n);
        let (rs, p2) = records_at(b, p, n).unwrap();
        let (ne, p3) = events_line_at(b, p2).unwrap();
        lemma_events_len(b, p3, ne);
        lemma_head_ok(b);
    }
}

pub proof fn lemma_head_ok(b: Seq<u8>)
    ensures
        head_at(b) matches Some((h, n, p)) ==> word_text(h.tool_rev) && line_text(h.dirty) && line_text(
            h.deps,
        ) && (h.header_summary matches Some(t) ==> line_text(t)) && n <= usize::MAX,
{
    reveal(head_at);
    if let Some((h, n, p)) = head_at(b) {
        let p1 = lit_at(b, 0, crate::capture::write::gate_line() + nl()).unwrap();
        let (fv, p2) = format_at(b, p1).unwrap();
        let p2l = lit_at(b, p2, lit("tool lucid-host ")).unwrap();
        lemma_text_at_ok(b, p2l, 32);
        let (rev, q) = text_at(b, p2l, 32).unwrap();
        lemma_text_at_ok(b, q + 1, 10);
        let (rv, dy, p3) = tool_at(b, p2).unwrap();
        let p3l = lit_at(b, p3, lit("deps ")).unwrap();
        lemma_text_at_ok(b, p3l, 10);
        let (dp, p4) = deps_at(b, p3).unwrap();
        let (m, p5) = run_mode_at(b, p4).unwrap();
        let (id, ver, pr, p6) = instrument_at(b, p5).unwrap();
        let (hz, p7) = domain_at(b, p6).unwrap();
        let (sd, p8) = seed_at(b, p7).unwrap();
        if lit_at(b, p8, lit("header") + nl()) is None {
            let p8l = lit_at(b, p8, lit("header ")).unwrap();
            lemma_text_at_ok(b, p8l, 10);
        }
    }
}

} // verus!
