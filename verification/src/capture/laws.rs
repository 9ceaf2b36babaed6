//! What holds of the container as a whole: it reads back as written; a file
//! with no version gate, or with a version this reader does not implement,
//! is never a container; and a container with a required header line taken
//! out is refused, naming that line's field.
use vstd::prelude::*;
use crate::capture::{CaptureModel, capture_in, holds_capture};
use crate::capture::gate::{find_nl, has_gate, version_token, gate_prefix};
use crate::capture::read::{capture_ok, lemma_capture_at};
use crate::capture::write::{capture_bytes, gate_line, nl, header_lines, joined, lemma_joined_ten};
use crate::wire::lit;

verus! {

/// A container reads back as the capture it was written from: the bytes
/// the writer writes for a capture hold that capture, and no other.
pub proof fn lemma_container_round_trip(c: CaptureModel)
    requires
        capture_ok(c),
    ensures
        holds_capture(capture_bytes(c)),
        capture_in(capture_bytes(c)) == c,
        forall|d: CaptureModel|
            capture_ok(d) && #[trigger] capture_bytes(d) == capture_bytes(c) ==> d == c,
{
    lemma_capture_at(c);
    assert(capture_ok(c) && capture_bytes(c) == capture_bytes(c));
    let x = capture_in(capture_bytes(c));
    lemma_capture_at(x);
    assert forall|d: CaptureModel|
        capture_ok(d) && #[trigger] capture_bytes(d) == capture_bytes(c) implies d == c by {
        lemma_capture_at(d);
    }
}

proof fn lemma_gate_line(c: CaptureModel)
    ensures
        capture_bytes(c).subrange(0, 17) == gate_line() + nl(),
        capture_bytes(c).len() >= 17,
{
    reveal_strlit("LUCID-CAPTURE v1");
    let hl = header_lines(c);
    lemma_joined_ten(hl);
    let b = capture_bytes(c);
    let rest = b.subrange(17, b.len() as int);
    assert(gate_line().len() == 16);
    assert(joined(hl) =~= (gate_line() + nl()) + joined(hl).subrange(17, joined(hl).len() as int));
    assert(b.subrange(0, 17) =~= gate_line() + nl());
}

proof fn lemma_find_nl_gate(b: Seq<u8>)
    requires
        b.len() >= 17,
        b.subrange(0, 17) == gate_line() + nl(),
    ensures
        find_nl(b, 0) == 16,
{
    reveal_strlit("LUCID-CAPTURE v1");
    let mut k: int = 0;
    assert forall|i: int| 0 <= i < 16 implies b[i] != 10 by {
        assert(b[i] == b.subrange(0, 17)[i]);
    }
    assert(b[16] == b.subrange(0, 17)[16]);
    lemma_find_nl_walk(b, 0, 16);
}

proof fn lemma_find_nl_walk(b: Seq<u8>, p: int, e: int)
    requires
        0 <= p <= e < b.len(),
        b[e] == 10,
        forall|i: int| p <= i < e ==> b[i] != 10,
    ensures
        find_nl(b, p) == e,
    decreases e - p,
{
    if p < e {
        lemma_find_nl_walk(b, p + 1, e);
    }
}

/// Every container opens with the v1 version gate.
pub proof fn lemma_container_gate(c: CaptureModel)
    ensures
        has_gate(capture_bytes(c)),
        version_token(capture_bytes(c)) == lit("1"),
{
    reveal_strlit("LUCID-CAPTURE v1");
    reveal_strlit("LUCID-CAPTURE v");
    reveal_strlit("1");
    let b = capture_bytes(c);
    lemma_gate_line(c);
    lemma_find_nl_gate(b);
    assert(b.subrange(0, 15) =~= gate_prefix()) by {
        assert forall|i: int| 0 <= i < 15 implies b.subrange(0, 15)[i] == gate_prefix()[i] by {
            assert(b[i] == b.subrange(0, 17)[i]);
        }
    }
    assert(version_token(b) =~= lit("1")) by {
        assert(b[15] == b.subrange(0, 17)[15]);
    }
}

/// A file with no version gate holds no container: a reader refuses it
/// before it trusts a byte.
pub proof fn lemma_headerless_refused(b: Seq<u8>)
    requires
        !has_gate(b),
    ensures
        !holds_capture(b),
{
    if holds_capture(b) {
        let c = choose|c: CaptureModel| capture_ok(c) && #[trigger] capture_bytes(c) == b;
        lemma_container_gate(c);
    }
}

/// A file stamped with a version other than 1 holds no container: the v1
/// reader refuses it, naming the version.
pub proof fn lemma_other_version_refused(b: Seq<u8>)
    requires
        version_token(b) != lit("1"),
    ensures
        !holds_capture(b),
{
    if holds_capture(b) {
        let c = choose|c: CaptureModel| capture_ok(c) && #[trigger] capture_bytes(c) == b;
        lemma_container_gate(c);
    }
}

} // verus!

verus! {

use crate::capture::gate::{first_missing_from, gate_verdict, header_key, line_has_key, missing_refusal, line_start};
use crate::capture::lines::{no_newline, opens_with, lemma_joined_concat, lemma_joined_split, lemma_line_at, lemma_line_key};
use crate::capture::write::{dec, sp, format_line, tool_line, deps_line, run_mode_line, instrument_line, domain_line, seed_line, header_line, schema_line, records_text, record_text, record_line, events_line, events_text, end_line};
use crate::capture::{RunMode, is_read_refusal, run_mode_token};
use crate::error::HostError;
use crate::text::{hex_digits, lemma_dec_digits_all, lemma_hex_digits_all};
use crate::wire::{line_text, lemma_encode_byte};
use vstd::utf8::encode_utf8;

/// The bytes of `b` with line `k` (and its newline) taken out.
pub open spec fn without_line(b: Seq<u8>, k: nat) -> Seq<u8> {
    b.subrange(0, line_start(b, k)) + b.subrange(line_start(b, k + 1), b.len() as int)
}

/// What follows the header lines: the record layouts, the events, the end.
pub open spec fn body(c: CaptureModel) -> Seq<u8> {
    records_text(c.schema.records) + events_line(c.records.len()) + nl() + events_text(c.records)
        + end_line() + nl()
}

proof fn lemma_capture_bytes_split(c: CaptureModel)
    ensures
        capture_bytes(c) == joined(header_lines(c)) + body(c),
{
    assert(capture_bytes(c) =~= joined(header_lines(c)) + body(c));
}

proof fn lemma_nn_concat(a: Seq<u8>, b: Seq<u8>)
    requires
        no_newline(a),
        no_newline(b),
    ensures
        no_newline(a + b),
{
    assert forall|i: int| 0 <= i < (a + b).len() implies #[trigger] (a + b)[i] != 10 by {
        if i < a.len() {
            assert((a + b)[i] == a[i]);
        } else {
            assert((a + b)[i] == b[i - a.len()]);
        }
    }
}

proof fn lemma_nn_digits(n: nat, w: nat)
    ensures
        no_newline(dec(n)),
        no_newline(hex_digits(n, w)),
{
    lemma_dec_digits_all(n);
    lemma_hex_digits_all(n, w);
    assert forall|i: int| 0 <= i < hex_digits(n, w).len() implies #[trigger] hex_digits(n, w)[i]
        != 10 by {
        assert(48 <= hex_digits(n, w)[i] <= 57 || 65 <= hex_digits(n, w)[i] <= 70);
    }
}

proof fn lemma_nn_text(t: Seq<char>)
    requires
        line_text(t),
    ensures
        no_newline(encode_utf8(t)),
{
    lemma_encode_byte(t, 10);
}

proof fn lemma_nn_literals()
    ensures
        no_newline(lit("LUCID-CAPTURE v1")),
        no_newline(lit("trace_format v")),
        no_newline(lit("tool lucid-host ")),
        no_newline(lit("deps ")),
        no_newline(lit("run_mode ")),
        no_newline(lit("SD")),
        no_newline(lit("JTAG")),
        no_newline(lit("SIM")),
        no_newline(lit("instrument 0x")),
        no_newline(lit(" version ")),
        no_newline(lit(" proto ")),
        no_newline(lit("timestamp_domain_hz ")),
        no_newline(lit("seed 0x")),
        no_newline(lit("seed none")),
        no_newline(lit("header ")),
        no_newline(lit("header")),
        no_newline(lit("schema ")),
        no_newline(lit(" 0x")),
        no_newline(sp()),
{
    reveal_strlit("LUCID-CAPTURE v1");
    reveal_strlit("trace_format v");
    reveal_strlit("tool lucid-host ");
    reveal_strlit("deps ");
    reveal_strlit("run_mode ");
    reveal_strlit("SD");
    reveal_strlit("JTAG");
    reveal_strlit("SIM");
    reveal_strlit("instrument 0x");
    reveal_strlit(" version ");
    reveal_strlit(" proto ");
    reveal_strlit("timestamp_domain_hz ");
    reveal_strlit("seed 0x");
    reveal_strlit("seed none");
    reveal_strlit("header ");
    reveal_strlit("header");
    reveal_strlit("schema ");
    reveal_strlit(" 0x");
}

/// No header line of a container holds a newline.
proof fn lemma_header_lines_nn(c: CaptureModel)
    requires
        capture_ok(c),
    ensures
        forall|i: int| 0 <= i < header_lines(c).len() ==> no_newline(#[trigger] header_lines(c)[i]),
{
    lemma_nn_literals();
    lemma_nn_digits(c.schema.format_version as nat, 0);
    lemma_nn_text(c.tool_rev);
    lemma_nn_text(c.dirty);
    lemma_nn_text(c.deps);
    lemma_nn_concat(lit("trace_format v"), dec(c.schema.format_version as nat));
    lemma_nn_concat(lit("tool lucid-host "), encode_utf8(c.tool_rev));
    lemma_nn_concat(lit("tool lucid-host ") + encode_utf8(c.tool_rev), sp());
    lemma_nn_concat(lit("tool lucid-host ") + encode_utf8(c.tool_rev) + sp(), encode_utf8(c.dirty));
    lemma_nn_concat(lit("deps "), encode_utf8(c.deps));
    lemma_nn_concat(lit("run_mode "), lit(run_mode_token(c.run_mode)));
    lemma_nn_digits(c.instrument_id as nat, 4);
    lemma_nn_digits(c.instrument_version as nat, 0);
    lemma_nn_digits(c.proto_version as nat, 0);
    lemma_nn_concat(lit("instrument 0x"), hex_digits(c.instrument_id as nat, 4));
    lemma_nn_concat(lit("instrument 0x") + hex_digits(c.instrument_id as nat, 4), lit(" version "));
    lemma_nn_concat(
        lit("instrument 0x") + hex_digits(c.instrument_id as nat, 4) + lit(" version "),
        dec(c.instrument_version as nat),
    );
    lemma_nn_concat(
        lit("instrument 0x") + hex_digits(c.instrument_id as nat, 4) + lit(" version ") + dec(
            c.instrument_version as nat,
        ),
        lit(" proto "),
    );
    lemma_nn_concat(
        lit("instrument 0x") + hex_digits(c.instrument_id as nat, 4) + lit(" version ") + dec(
            c.instrument_version as nat,
        ) + lit(" proto "),
        dec(c.proto_version as nat),
    );
    lemma_nn_digits(c.core_clock_hz as nat, 0);
    lemma_nn_concat(lit("timestamp_domain_hz "), dec(c.core_clock_hz as nat));
    match c.seed {
        Some(s) => {
            lemma_nn_digits(s as nat, 8);
            lemma_nn_concat(lit("seed 0x"), hex_digits(s as nat, 8));
        },
        None => {},
    }
    match c.header_summary {
        Some(t) => {
            lemma_nn_text(t);
            lemma_nn_concat(lit("header "), encode_utf8(t));
        },
        None => {},
    }
    let s = c.schema;
    lemma_nn_digits(s.schema_version as nat, 0);
    lemma_nn_digits(s.schema_hash as nat, 16);
    lemma_nn_digits(s.core_clock_hz as nat, 0);
    lemma_nn_digits(s.records.len(), 0);
    let p1 = lit("schema ") + dec(s.schema_version as nat);
    lemma_nn_concat(lit("schema "), dec(s.schema_version as nat));
    lemma_nn_concat(p1, lit(" 0x"));
    lemma_nn_concat(p1 + lit(" 0x"), hex_digits(s.schema_hash as nat, 16));
    let p2 = p1 + lit(" 0x") + hex_digits(s.schema_hash as nat, 16);
    lemma_nn_concat(p2, sp());
    lemma_nn_concat(p2 + sp(), dec(s.core_clock_hz as nat));
    lemma_nn_concat(p2 + sp() + dec(s.core_clock_hz as nat), sp());
    lemma_nn_concat(p2 + sp() + dec(s.core_clock_hz as nat) + sp(), dec(s.records.len()));
    assert(run_mode_token(c.run_mode) == "SD" || run_mode_token(c.run_mode) == "JTAG"
        || run_mode_token(c.run_mode) == "SIM");
}

/// `line` opens with the literal `p`, which opens with `key` and a space.
proof fn lemma_opens(line: Seq<u8>, p: Seq<u8>, key: Seq<u8>)
    requires
        p.len() <= line.len(),
        line.subrange(0, p.len() as int) == p,
        key.len() < p.len(),
        p.subrange(0, key.len() as int) == key,
        p[key.len() as int] == 32,
    ensures
        opens_with(line, key),
{
    assert(line.subrange(0, key.len() as int) =~= p.subrange(0, key.len() as int));
    assert(line[key.len() as int] == line.subrange(0, p.len() as int)[key.len() as int]);
}

/// A line that opens with `key` has `key`'s first two bytes first.
proof fn lemma_opens_first_two(line: Seq<u8>, key: Seq<u8>)
    requires
        opens_with(line, key),
        key.len() >= 2,
    ensures
        line[0] == key[0],
        line[1] == key[1],
{
    assert(line[0] == line.subrange(0, key.len() as int)[0]);
    assert(line[1] == line.subrange(0, key.len() as int)[1]);
}

proof fn lemma_key_literals()
    ensures
        lit("trace_format v").subrange(0, 12) == lit("trace_format"),
        lit("trace_format v")[12] == 32,
        lit("tool lucid-host ").subrange(0, 4) == lit("tool"),
        lit("tool lucid-host ")[4] == 32,
        lit("deps ").subrange(0, 4) == lit("deps"),
        lit("deps ")[4] == 32,
        lit("run_mode ").subrange(0, 8) == lit("run_mode"),
        lit("run_mode ")[8] == 32,
        lit("instrument 0x").subrange(0, 10) == lit("instrument"),
        lit("instrument 0x")[10] == 32,
        lit("timestamp_domain_hz ").subrange(0, 19) == lit("timestamp_domain_hz"),
        lit("timestamp_domain_hz ")[19] == 32,
        lit("seed 0x").subrange(0, 4) == lit("seed"),
        lit("seed 0x")[4] == 32,
        lit("seed none").subrange(0, 4) == lit("seed"),
        lit("seed none")[4] == 32,
        lit("header ").subrange(0, 6) == lit("header"),
        lit("header ")[6] == 32,
        lit("schema ").subrange(0, 6) == lit("schema"),
        lit("schema ")[6] == 32,
        lit("trace_format").len() == 12,
        lit("tool").len() == 4,
        lit("deps").len() == 4,
        lit("run_mode").len() == 8,
        lit("instrument").len() == 10,
        lit("timestamp_domain_hz").len() == 19,
        lit("seed").len() == 4,
        lit("header").len() == 6,
        lit("schema").len() == 6,
        lit("trace_format v").len() == 14,
        lit("tool lucid-host ").len() == 16,
        lit("deps ").len() == 5,
        lit("run_mode ").len() == 9,
        lit("instrument 0x").len() == 13,
        lit("timestamp_domain_hz ").len() == 20,
        lit("seed 0x").len() == 7,
        lit("seed none").len() == 9,
        lit("header ").len() == 7,
        lit("schema ").len() == 7,
{
    reveal_strlit("trace_format v");
    reveal_strlit("tool lucid-host ");
    reveal_strlit("deps ");
    reveal_strlit("run_mode ");
    reveal_strlit("instrument 0x");
    reveal_strlit("timestamp_domain_hz ");
    reveal_strlit("seed 0x");
    reveal_strlit("seed none");
    reveal_strlit("header ");
    reveal_strlit("schema ");
    reveal_strlit("trace_format");
    reveal_strlit("tool");
    reveal_strlit("deps");
    reveal_strlit("run_mode");
    reveal_strlit("instrument");
    reveal_strlit("timestamp_domain_hz");
    reveal_strlit("seed");
    reveal_strlit("header");
    reveal_strlit("schema");
    assert(lit("trace_format v").subrange(0, 12) =~= lit("trace_format"));
    assert(lit("tool lucid-host ").subrange(0, 4) =~= lit("tool"));
    assert(lit("deps ").subrange(0, 4) =~= lit("deps"));
    assert(lit("run_mode ").subrange(0, 8) =~= lit("run_mode"));
    assert(lit("instrument 0x").subrange(0, 10) =~= lit("instrument"));
    assert(lit("timestamp_domain_hz ").subrange(0, 19) =~= lit("timestamp_domain_hz"));
    assert(lit("seed 0x").subrange(0, 4) =~= lit("seed"));
    assert(lit("seed none").subrange(0, 4) =~= lit("seed"));
    assert(lit("header ").subrange(0, 6) =~= lit("header"));
    assert(lit("schema ").subrange(0, 6) =~= lit("schema"));
}

/// Each header line after the first opens with its key.
proof fn lemma_header_keys(c: CaptureModel)
    ensures
        forall|k: int| 1 <= k <= 9 ==> opens_with(#[trigger] header_lines(c)[k], lit(header_key(k))),
{
    let hl = header_lines(c);
    lemma_key_literals();
    let p1 = lit("trace_format v");
    assert(hl[1].subrange(0, p1.len() as int) =~= p1);
    lemma_opens(hl[1], p1, lit(header_key(1)));
    let p2 = lit("tool lucid-host ");
    assert(hl[2].subrange(0, p2.len() as int) =~= p2);
    lemma_opens(hl[2], p2, lit(header_key(2)));
    let p3 = lit("deps ");
    assert(hl[3].subrange(0, p3.len() as int) =~= p3);
    lemma_opens(hl[3], p3, lit(header_key(3)));
    let p4 = lit("run_mode ");
    assert(hl[4].subrange(0, p4.len() as int) =~= p4);
    lemma_opens(hl[4], p4, lit(header_key(4)));
    let p5 = lit("instrument 0x");
    assert(hl[5].subrange(0, p5.len() as int) =~= p5);
    lemma_opens(hl[5], p5, lit(header_key(5)));
    let p6 = lit("timestamp_domain_hz ");
    assert(hl[6].subrange(0, p6.len() as int) =~= p6);
    lemma_opens(hl[6], p6, lit(header_key(6)));
    match c.seed {
        Some(x) => {
            let p7 = lit("seed 0x");
            assert(hl[7].subrange(0, p7.len() as int) =~= p7);
            lemma_opens(hl[7], p7, lit(header_key(7)));
        },
        None => {
            let p7 = lit("seed none");
            assert(hl[7].subrange(0, p7.len() as int) =~= p7);
            lemma_opens(hl[7], p7, lit(header_key(7)));
        },
    }
    match c.header_summary {
        Some(t) => {
            let p8 = lit("header ");
            assert(hl[8].subrange(0, p8.len() as int) =~= p8);
            lemma_opens(hl[8], p8, lit(header_key(8)));
        },
        None => {
            assert(hl[8] == lit("header"));
            assert(hl[8].subrange(0, 6) =~= hl[8]);
        },
    }
    let p9 = lit("schema ");
    assert(hl[9].subrange(0, p9.len() as int) =~= p9);
    lemma_opens(hl[9], p9, lit(header_key(9)));
}

/// Each key's first two bytes differ from those of the next key.
proof fn lemma_keys_differ()
    ensures
        forall|k: int|
            1 <= k <= 9 ==> lit(#[trigger] header_key(k)).len() >= 4 && lit(header_key(k))[0] != 10,
        forall|k: int|
            1 <= k <= 8 ==> (lit(#[trigger] header_key(k + 1))[0] != lit(header_key(k))[0] || lit(
                header_key(k + 1),
            )[1] != lit(header_key(k))[1]),
        lit(header_key(9))[0] == 115,
{
    reveal_strlit("trace_format");
    reveal_strlit("tool");
    reveal_strlit("deps");
    reveal_strlit("run_mode");
    reveal_strlit("instrument");
    reveal_strlit("timestamp_domain_hz");
    reveal_strlit("seed");
    reveal_strlit("header");
    reveal_strlit("schema");
    assert forall|k: int| 1 <= k <= 8 implies (lit(#[trigger] header_key(k + 1))[0] != lit(
        header_key(k),
    )[0] || lit(header_key((k + 1) as int))[1] != lit(header_key(k))[1]) by {
        if k == 1 {
        } else if k == 2 {
        } else if k == 3 {
        } else if k == 4 {
        } else if k == 5 {
        } else if k == 6 {
        } else if k == 7 {
        } else {
        }
    }
}

/// What follows the header lines opens with `record` or with `events`.
proof fn lemma_body_first(c: CaptureModel)
    ensures
        body(c).len() > 0,
        body(c)[0] == 114 || body(c)[0] == 101,
{
    reveal_strlit("record ");
    reveal_strlit("events ");
    let rs = c.schema.records;
    let m = rs.map_values(|r: crate::capture::RecordModel| record_text(r));
    if rs.len() > 0 {
        assert(records_text(rs) == m.first() + m.drop_first().flatten());
        assert(m.first() == record_text(rs[0]));
        assert(record_text(rs[0])[0] == lit("record ")[0]);
        assert(body(c)[0] == records_text(rs)[0]);
    } else {
        assert(records_text(rs) =~= Seq::<u8>::empty());
        assert(body(c)[0] == events_line(c.records.len())[0]);
    }
}

proof fn lemma_all_keys_from(b: Seq<u8>, k: nat, stop: nat)
    requires
        1 <= k <= stop <= 10,
        forall|j: int| k <= j < stop ==> line_has_key(b, j as nat, lit(#[trigger] header_key(j))),
    ensures
        first_missing_from(b, k) == first_missing_from(b, stop),
    decreases stop - k,
{
    if k < stop {
        assert(line_has_key(b, k, lit(header_key(k as int))));
        lemma_all_keys_from(b, k + 1, stop);
    }
}

/// Line `k` of lines joined, then anything, opens with key `k` when the
/// line does.
proof fn lemma_line_key_at(ls: Seq<Seq<u8>>, rest: Seq<u8>, k: nat)
    requires
        k < ls.len(),
        1 <= k <= 9,
        forall|i: int| 0 <= i < ls.len() ==> no_newline(#[trigger] ls[i]),
    ensures
        line_has_key(joined(ls) + rest, k, lit(header_key(k as int))) <==> opens_with(
            ls[k as int],
            lit(header_key(k as int)),
        ),
{
    lemma_line_key(ls, rest, k, lit(header_key(k as int)));
}

/// A container's header has every required field.
proof fn lemma_no_missing_field(c: CaptureModel)
    requires
        capture_ok(c),
    ensures
        first_missing_from(capture_bytes(c), 1) == 10,
{
    let hl = header_lines(c);
    lemma_capture_bytes_split(c);
    lemma_header_lines_nn(c);
    lemma_header_keys(c);
    assert forall|j: int| 1 <= j < 10 implies line_has_key(
        capture_bytes(c),
        j as nat,
        lit(#[trigger] header_key(j)),
    ) by {
        lemma_line_key_at(hl, body(c), j as nat);
    }
    lemma_all_keys_from(capture_bytes(c), 1, 10);
}

/// Lines whose first is the version line, joined, then anything, pass the
/// version check at version 1.
proof fn lemma_version_line(ls: Seq<Seq<u8>>, rest: Seq<u8>)
    requires
        ls.len() >= 1,
        ls[0] == gate_line(),
        forall|i: int| 0 <= i < ls.len() ==> no_newline(#[trigger] ls[i]),
    ensures
        has_gate(joined(ls) + rest),
        version_token(joined(ls) + rest) == lit("1"),
{
    reveal_strlit("LUCID-CAPTURE v1");
    reveal_strlit("LUCID-CAPTURE v");
    reveal_strlit("1");
    let b = joined(ls) + rest;
    lemma_line_at(ls, rest, 0);
    assert(ls.take(0) =~= Seq::<Seq<u8>>::empty());
    assert(joined(ls.take(0)).len() == 0) by {
        assert(ls.take(0).map_values(|x: Seq<u8>| x + nl()) =~= Seq::<Seq<u8>>::empty());
    }
    assert(gate_line().len() == 16);
    assert(b.subrange(0, 16) == gate_line());
    assert(find_nl(b, 0) == 16);
    assert(b.subrange(0, 15) =~= gate_prefix()) by {
        assert forall|i: int| 0 <= i < 15 implies b.subrange(0, 15)[i] == gate_prefix()[i] by {
            assert(b[i] == b.subrange(0, 16)[i]);
        }
    }
    assert(version_token(b) =~= lit("1")) by {
        assert(b[15] == b.subrange(0, 16)[15]);
    }
}

/// The bytes of a container with header line `k` taken out are the other
/// header lines joined, then the body.
proof fn lemma_without_line(c: CaptureModel, k: nat)
    requires
        capture_ok(c),
        1 <= k <= 9,
    ensures
        without_line(capture_bytes(c), k) == joined(
            header_lines(c).take(k as int) + header_lines(c).skip((k + 1) as int),
        ) + body(c),
{
    let hl = header_lines(c);
    let b = capture_bytes(c);
    lemma_capture_bytes_split(c);
    lemma_header_lines_nn(c);
    lemma_line_at(hl, body(c), k);
    lemma_line_at(hl, body(c), k + 1);
    lemma_joined_split(hl, k as int);
    let pre = joined(hl.take(k as int));
    let post = joined(hl.skip((k + 1) as int));
    assert(b =~= pre + (hl[k as int] + nl()) + (post + body(c)));
    assert(b.subrange(0, pre.len() as int) =~= pre);
    assert(b.subrange((pre.len() + hl[k as int].len() + 1) as int, b.len() as int) =~= post + body(c));
    lemma_joined_concat(hl.take(k as int), hl.skip((k + 1) as int));
    assert(without_line(b, k) =~= pre + post + body(c));
}

/// A container with one required header line taken out holds no container,
/// and a reader refuses it naming that line's field.
pub proof fn lemma_stripped_field_refused(c: CaptureModel, k: nat)
    requires
        capture_ok(c),
        1 <= k <= 9,
    ensures
        !holds_capture(without_line(capture_bytes(c), k)),
        gate_verdict(without_line(capture_bytes(c), k)) == Some(missing_refusal(k)),
        forall|e: HostError|
            #[trigger] is_read_refusal(e, without_line(capture_bytes(c), k)) <==> (e matches HostError::Refused(
                m,
            ) && m@ == missing_refusal(k)),
{
    let hl = header_lines(c);
    let ls = hl.take(k as int) + hl.skip((k + 1) as int);
    let b = without_line(capture_bytes(c), k);
    lemma_without_line(c, k);
    lemma_header_lines_nn(c);
    lemma_header_keys(c);
    lemma_keys_differ();
    assert(ls.len() == 9);
    assert forall|i: int| 0 <= i < ls.len() implies no_newline(#[trigger] ls[i]) by {
        if i < k {
            assert(ls[i] == hl[i]);
        } else {
            assert(ls[i] == hl[i + 1]);
        }
    }
    assert(ls[0] == hl[0]);
    lemma_version_line(ls, body(c));
    assert forall|j: int| 1 <= j < k implies line_has_key(b, j as nat, lit(#[trigger] header_key(j))) by {
        assert(ls[j] == hl[j]);
        lemma_line_key_at(ls, body(c), j as nat);
    }
    lemma_all_keys_from(b, 1, k);
    if k <= 8 {
        assert(ls[k as int] == hl[(k + 1) as int]);
        lemma_line_key_at(ls, body(c), k);
        if opens_with(hl[(k + 1) as int], lit(header_key(k as int))) {
            lemma_opens_first_two(hl[(k + 1) as int], lit(header_key(k as int)));
            lemma_opens_first_two(hl[(k + 1) as int], lit(header_key((k + 1) as int)));
        }
        assert(!line_has_key(b, k, lit(header_key(k as int))));
    } else {
        lemma_line_at(ls, body(c), 9);
        assert(ls.take(9) =~= ls);
        lemma_body_first(c);
        let s = joined(ls).len() as int;
        if line_has_key(b, 9, lit(header_key(9))) {
            assert(b.subrange(s, s + 6)[0] == lit(header_key(9))[0]);
            assert(b[s] == body(c)[0]);
        }
    }
    assert(first_missing_from(b, k) == k);
    if holds_capture(b) {
        let d = choose|d: CaptureModel| capture_ok(d) && #[trigger] capture_bytes(d) == b;
        lemma_no_missing_field(d);
    }
}

} // verus!
