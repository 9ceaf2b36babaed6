//! The container's line readers, each stated exactly over its spec reader.
use vstd::prelude::*;
use crate::capture::{Capture, Encoding, FieldDef, FieldModel, RawRecord, RecordDef, RecordModel, RunMode, Schema, SchemaModel};
use crate::capture::read::{format_at, tool_at, deps_at, run_mode_at, instrument_at, domain_at, seed_at, header_at, schema_at, encoding_at, field_at, fields_at, record_line_at, record_at, records_at, events_line_at, event_at, events_at, u16_max, u32_max};
use crate::capture::write::{sp, nl};
use crate::wire::{lit, lit_at, expect_lit, expect_byte, parse_dec, parse_hex, parse_text};

verus! {

fn read_format(b: &[u8], p: usize) -> (r: Option<(u16, usize)>)
    ensures
        match r {
            None => format_at(b@, p as int) is None,
            Some((v, q)) => format_at(b@, p as int) == Some((v, q as int)),
        },
{
    proof {
        reveal_strlit("trace_format v");
    }
    let p1 = expect_lit(b, p, "trace_format v")?;
    let (v, p2) = parse_dec(b, p1, 0xFFFF)?;
    let p3 = expect_byte(b, p2, 10)?;
    assert(seq![10u8] == nl());
    Some((v as u16, p3))
}

fn read_tool(b: &[u8], p: usize) -> (r: Option<(String, String, usize)>)
    ensures
        match r {
            None => tool_at(b@, p as int) is None,
            Some((rev, dirty, q)) => tool_at(b@, p as int) == Some((rev@, dirty@, q as int)),
        },
{
    proof {
        reveal_strlit("tool lucid-host ");
    }
    let p1 = expect_lit(b, p, "tool lucid-host ")?;
    let (rev, q) = match parse_text(b, p1, 32) {
        Some(x) => x,
        None => return None,
    };
    let (dirty, r) = match parse_text(b, q + 1, 10) {
        Some(x) => x,
        None => return None,
    };
    Some((rev, dirty, r + 1))
}

fn read_deps(b: &[u8], p: usize) -> (r: Option<(String, usize)>)
    ensures
        match r {
            None => deps_at(b@, p as int) is None,
            Some((t, q)) => deps_at(b@, p as int) == Some((t@, q as int)),
        },
{
    proof {
        reveal_strlit("deps ");
    }
    let p1 = expect_lit(b, p, "deps ")?;
    let (t, q) = match parse_text(b, p1, 10) {
        Some(x) => x,
        None => return None,
    };
    Some((t, q + 1))
}

fn read_run_mode(b: &[u8], p: usize) -> (r: Option<(RunMode, usize)>)
    ensures
        match r {
            None => run_mode_at(b@, p as int) is None,
            Some((m, q)) => run_mode_at(b@, p as int) == Some((m, q as int)),
        },
{
    proof {
        reveal_strlit("run_mode ");
        reveal_strlit("SD\n");
        reveal_strlit("JTAG\n");
        reveal_strlit("SIM\n");
        reveal_strlit("SD");
        reveal_strlit("JTAG");
        reveal_strlit("SIM");
        assert(lit("SD\n") =~= lit("SD") + nl());
        assert(lit("JTAG\n") =~= lit("JTAG") + nl());
        assert(lit("SIM\n") =~= lit("SIM") + nl());
    }
    let p1 = expect_lit(b, p, "run_mode ")?;
    if let Some(q) = expect_lit(b, p1, "SD\n") {
        Some((RunMode::Sd, q))
    } else if let Some(q) = expect_lit(b, p1, "JTAG\n") {
        Some((RunMode::Jtag, q))
    } else if let Some(q) = expect_lit(b, p1, "SIM\n") {
        Some((RunMode::Sim, q))
    } else {
        None
    }
}

fn read_instrument(b: &[u8], p: usize) -> (r: Option<(u16, u32, u16, usize)>)
    ensures
        match r {
            None => instrument_at(b@, p as int) is None,
            Some((id, v, pr, q)) => instrument_at(b@, p as int) == Some((id, v, pr, q as int)),
        },
{
    proof {
        reveal_strlit("instrument 0x");
        reveal_strlit(" version ");
        reveal_strlit(" proto ");
        assert(seq![10u8] == nl());
    }
    let p1 = expect_lit(b, p, "instrument 0x")?;
    let (id, p2) = parse_hex(b, p1, 4)?;
    let p3 = expect_lit(b, p2, " version ")?;
    let (v, p4) = parse_dec(b, p3, 0xFFFF_FFFF)?;
    let p5 = expect_lit(b, p4, " proto ")?;
    let (pr, p6) = parse_dec(b, p5, 0xFFFF)?;
    let p7 = expect_byte(b, p6, 10)?;
    proof {
        crate::capture::read::lemma_pow16_values();
        crate::wire::lemma_hex_value_bound(b@.subrange(p1 as int, p1 + 4));
    }
    Some((id as u16, v as u32, pr as u16, p7))
}

fn read_domain(b: &[u8], p: usize) -> (r: Option<(u32, usize)>)
    ensures
        match r {
            None => domain_at(b@, p as int) is None,
            Some((v, q)) => domain_at(b@, p as int) == Some((v, q as int)),
        },
{
    proof {
        reveal_strlit("timestamp_domain_hz ");
        assert(seq![10u8] == nl());
    }
    let p1 = expect_lit(b, p, "timestamp_domain_hz ")?;
    let (v, p2) = parse_dec(b, p1, 0xFFFF_FFFF)?;
    let p3 = expect_byte(b, p2, 10)?;
    Some((v as u32, p3))
}

fn read_seed(b: &[u8], p: usize) -> (r: Option<(Option<u32>, usize)>)
    ensures
        match r {
            None => seed_at(b@, p as int) is None,
            Some((s, q)) => seed_at(b@, p as int) == Some((s, q as int)),
        },
{
    proof {
        reveal_strlit("seed none\n");
        reveal_strlit("seed none");
        reveal_strlit("seed 0x");
        assert(lit("seed none\n") =~= lit("seed none") + nl());
        assert(seq![10u8] == nl());
    }
    if let Some(q) = expect_lit(b, p, "seed none\n") {
        return Some((None, q));
    }
    let p1 = expect_lit(b, p, "seed 0x")?;
    let (s, p2) = parse_hex(b, p1, 8)?;
    let p3 = expect_byte(b, p2, 10)?;
    proof {
        crate::capture::read::lemma_pow16_values();
        crate::wire::lemma_hex_value_bound(b@.subrange(p1 as int, p1 + 8));
    }
    Some((Some(s as u32), p3))
}

fn read_header(b: &[u8], p: usize) -> (r: Option<(Option<String>, usize)>)
    ensures
        match r {
            None => header_at(b@, p as int) is None,
            Some((h, q)) => header_at(b@, p as int) == Some((crate::capture::opt_text(h), q as int)),
        },
{
    proof {
        reveal_strlit("header\n");
        reveal_strlit("header");
        reveal_strlit("header ");
        assert(lit("header\n") =~= lit("header") + nl());
    }
    if let Some(q) = expect_lit(b, p, "header\n") {
        return Some((None, q));
    }
    let p1 = expect_lit(b, p, "header ")?;
    let (t, q) = match parse_text(b, p1, 10) {
        Some(x) => x,
        None => return None,
    };
    Some((Some(t), q + 1))
}

fn read_schema(b: &[u8], p: usize) -> (r: Option<(u16, u64, u32, usize, usize)>)
    ensures
        match r {
            None => schema_at(b@, p as int) is None,
            Some((v, h, c, n, q)) => schema_at(b@, p as int) == Some((v, h, c, n as nat, q as int)),
        },
{
    proof {
        reveal_strlit("schema ");
        reveal_strlit(" 0x");
        assert(seq![10u8] == nl());
        assert(seq![32u8] == sp());
    }
    let p1 = expect_lit(b, p, "schema ")?;
    let (v, p2) = parse_dec(b, p1, 0xFFFF)?;
    let p3 = expect_lit(b, p2, " 0x")?;
    let (h, p4) = parse_hex(b, p3, 16)?;
    let p5 = expect_byte(b, p4, 32)?;
    let (c, p6) = parse_dec(b, p5, 0xFFFF_FFFF)?;
    let p7 = expect_byte(b, p6, 32)?;
    let (n, p8) = parse_dec(b, p7, usize::MAX as u64)?;
    let p9 = expect_byte(b, p8, 10)?;
    proof {
        crate::capture::read::lemma_pow16_values();
        crate::wire::lemma_hex_value_bound(b@.subrange(p3 as int, p3 + 16));
    }
    Some((v as u16, h as u64, c as u32, n as usize, p9))
}

} // verus!

verus! {

fn read_encoding(b: &[u8], p: usize) -> (r: Option<(Encoding, usize)>)
    ensures
        match r {
            None => encoding_at(b@, p as int) is None,
            Some((e, q)) => encoding_at(b@, p as int) == Some((e, q as int)),
        },
{
    proof {
        reveal_strlit("U ");
        reveal_strlit("HEX ");
        reveal_strlit("ENUM ");
        reveal_strlit("U");
        reveal_strlit("HEX");
        reveal_strlit("ENUM");
        assert(lit("U ") =~= lit("U") + sp());
        assert(lit("HEX ") =~= lit("HEX") + sp());
        assert(lit("ENUM ") =~= lit("ENUM") + sp());
    }
    if let Some(q) = expect_lit(b, p, "U ") {
        Some((Encoding::U, q))
    } else if let Some(q) = expect_lit(b, p, "HEX ") {
        Some((Encoding::Hex, q))
    } else if let Some(q) = expect_lit(b, p, "ENUM ") {
        Some((Encoding::Enum, q))
    } else {
        None
    }
}

fn read_field(b: &[u8], p: usize) -> (r: Option<(FieldDef, usize)>)
    ensures
        match r {
            None => field_at(b@, p as int) is None,
            Some((f, q)) => field_at(b@, p as int) == Some((f@, q as int)),
        },
{
    proof {
        reveal_strlit("field ");
        assert(seq![32u8] == sp());
    }
    let p1 = expect_lit(b, p, "field ")?;
    let (off, p2) = parse_dec(b, p1, 0xFFFF)?;
    let p3 = expect_byte(b, p2, 32)?;
    let (w, p4) = parse_dec(b, p3, 0xFFFF)?;
    let p5 = expect_byte(b, p4, 32)?;
    let (e, p6) = read_encoding(b, p5)?;
    let (name, q) = match parse_text(b, p6, 10) {
        Some(x) => x,
        None => return None,
    };
    Some((FieldDef { name, offset: off as u16, width: w as u16, encoding: e }, q + 1))
}

fn read_fields(b: &[u8], p: usize, n: usize) -> (r: Option<(Vec<FieldDef>, usize)>)
    ensures
        match r {
            None => fields_at(b@, p as int, n as nat) is None,
            Some((fs, q)) => fields_at(b@, p as int, n as nat) == Some(
                (fs@.map_values(|f: FieldDef| f@), q as int),
            ),
        },
{
    let mut out: Vec<FieldDef> = Vec::new();
    let mut pos = p;
    let mut i: usize = 0;
    while i < n
        invariant
            i <= n,
            fields_at(b@, p as int, n as nat) == match fields_at(b@, pos as int, (n - i) as nat) {
                None => None,
                Some((fs, q)) => Some((out@.map_values(|f: FieldDef| f@) + fs, q)),
            },
        decreases n - i,
    {
        let (f, q) = match read_field(b, pos) {
            Some(x) => x,
            None => return None,
        };
        let ghost before = out@.map_values(|g: FieldDef| g@);
        out.push(f);
        assert(out@.map_values(|g: FieldDef| g@) =~= before.push(f@));
        proof {
            match fields_at(b@, q as int, (n - i - 1) as nat) {
                None => {},
                Some((fs, e)) => {
                    assert(before + (seq![f@] + fs) =~= before.push(f@) + fs);
                },
            }
        }
        pos = q;
        i = i + 1;
    }
    assert(out@.map_values(|f: FieldDef| f@) + Seq::<FieldModel>::empty() =~= out@.map_values(
        |f: FieldDef| f@,
    ));
    Some((out, pos))
}

fn read_record(b: &[u8], p: usize) -> (r: Option<(RecordDef, usize)>)
    ensures
        match r {
            None => record_at(b@, p as int) is None,
            Some((d, q)) => record_at(b@, p as int) == Some((d@, q as int)),
        },
{
    proof {
        reveal_strlit("record ");
        assert(seq![32u8] == sp());
    }
    let p1 = expect_lit(b, p, "record ")?;
    let (tag, p2) = parse_dec(b, p1, 0xFF)?;
    let p3 = expect_byte(b, p2, 32)?;
    let (n, p4) = parse_dec(b, p3, usize::MAX as u64)?;
    let p5 = expect_byte(b, p4, 32)?;
    let (name, q) = match parse_text(b, p5, 10) {
        Some(x) => x,
        None => return None,
    };
    assert(record_line_at(b@, p as int) == Some((tag as u8, n as nat, name@, q + 1)));
    let (fields, e) = match read_fields(b, q + 1, n as usize) {
        Some(x) => x,
        None => return None,
    };
    Some((RecordDef { tag: tag as u8, name, fields }, e))
}

fn read_records(b: &[u8], p: usize, n: usize) -> (r: Option<(Vec<RecordDef>, usize)>)
    ensures
        match r {
            None => records_at(b@, p as int, n as nat) is None,
            Some((rs, q)) => records_at(b@, p as int, n as nat) == Some(
                (rs@.map_values(|d: RecordDef| d@), q as int),
            ),
        },
{
    let mut out: Vec<RecordDef> = Vec::new();
    let mut pos = p;
    let mut i: usize = 0;
    while i < n
        invariant
            i <= n,
            records_at(b@, p as int, n as nat) == match records_at(b@, pos as int, (n - i) as nat) {
                None => None,
                Some((rs, q)) => Some((out@.map_values(|d: RecordDef| d@) + rs, q)),
            },
        decreases n - i,
    {
        let (d, q) = match read_record(b, pos) {
            Some(x) => x,
            None => return None,
        };
        let ghost before = out@.map_values(|g: RecordDef| g@);
        let ghost dv = d@;
        out.push(d);
        assert(out@.map_values(|g: RecordDef| g@) =~= before.push(dv));
        proof {
            match records_at(b@, q as int, (n - i - 1) as nat) {
                None => {},
                Some((rs, e)) => {
                    assert(before + (seq![dv] + rs) =~= before.push(dv) + rs);
                },
            }
        }
        pos = q;
        i = i + 1;
    }
    assert(out@.map_values(|d: RecordDef| d@) + Seq::<RecordModel>::empty() =~= out@.map_values(
        |d: RecordDef| d@,
    ));
    Some((out, pos))
}

fn read_event(b: &[u8], p: usize) -> (r: Option<(RawRecord, usize)>)
    ensures
        match r {
            None => event_at(b@, p as int) is None,
            Some((e, q)) => event_at(b@, p as int) == Some((e, q as int)),
        },
{
    proof {
        assert(seq![32u8] == sp());
        assert(seq![10u8] == nl());
    }
    let (tag, p1) = parse_hex(b, p, 2)?;
    let p2 = expect_byte(b, p1, 32)?;
    let (ts, p3) = parse_hex(b, p2, 8)?;
    let p4 = expect_byte(b, p3, 32)?;
    let (bits, p5) = parse_hex(b, p4, 4)?;
    let p6 = expect_byte(b, p5, 32)?;
    let (payload, p7) = parse_hex(b, p6, 32)?;
    let p8 = expect_byte(b, p7, 10)?;
    proof {
        crate::capture::read::lemma_pow16_values();
        crate::wire::lemma_hex_value_bound(b@.subrange(p as int, p + 2));
        crate::wire::lemma_hex_value_bound(b@.subrange(p2 as int, p2 + 8));
        crate::wire::lemma_hex_value_bound(b@.subrange(p4 as int, p4 + 4));
    }
    Some((RawRecord { tag: tag as u8, timestamp: ts as u32, payload, payload_bits: bits as u16 }, p8))
}

fn read_events(b: &[u8], p: usize, n: usize) -> (r: Option<(Vec<RawRecord>, usize)>)
    ensures
        match r {
            None => events_at(b@, p as int, n as nat) is None,
            Some((es, q)) => events_at(b@, p as int, n as nat) == Some((es@, q as int)),
        },
{
    let mut out: Vec<RawRecord> = Vec::new();
    let mut pos = p;
    let mut i: usize = 0;
    while i < n
        invariant
            i <= n,
            events_at(b@, p as int, n as nat) == match events_at(b@, pos as int, (n - i) as nat) {
                None => None,
                Some((es, q)) => Some((out@ + es, q)),
            },
        decreases n - i,
    {
        let (e, q) = match read_event(b, pos) {
            Some(x) => x,
            None => return None,
        };
        let ghost before = out@;
        out.push(e);
        proof {
            match events_at(b@, q as int, (n - i - 1) as nat) {
                None => {},
                Some((es, f)) => {
                    assert(before + (seq![e] + es) =~= before.push(e) + es);
                },
            }
        }
        pos = q;
        i = i + 1;
    }
    assert(out@ + Seq::<RawRecord>::empty() =~= out@);
    Some((out, pos))
}

fn read_events_line(b: &[u8], p: usize) -> (r: Option<(usize, usize)>)
    ensures
        match r {
            None => events_line_at(b@, p as int) is None,
            Some((n, q)) => events_line_at(b@, p as int) == Some((n as nat, q as int)),
        },
{
    proof {
        reveal_strlit("events ");
        assert(seq![10u8] == nl());
    }
    let p1 = expect_lit(b, p, "events ")?;
    let (n, p2) = parse_dec(b, p1, usize::MAX as u64)?;
    let p3 = expect_byte(b, p2, 10)?;
    Some((n as usize, p3))
}

} // verus!

verus! {

fn read_head(b: &[u8]) -> (r: Option<(Capture, usize, usize)>)
    ensures
        match r {
            None => crate::capture::read::head_at(b@) is None,
            Some((c, n, q)) => crate::capture::read::head_at(b@) == Some((c@, n as nat, q as int)),
        },
{
    proof {
        reveal(crate::capture::read::head_at);
        reveal_strlit("LUCID-CAPTURE v1\n");
        reveal_strlit("LUCID-CAPTURE v1");
        assert(lit("LUCID-CAPTURE v1\n") =~= crate::capture::write::gate_line() + nl());
    }
    let p1 = expect_lit(b, 0, "LUCID-CAPTURE v1\n")?;
    let (fv, p2) = read_format(b, p1)?;
    let (tool_rev, dirty, p3) = read_tool(b, p2)?;
    let (deps, p4) = read_deps(b, p3)?;
    let (run_mode, p5) = read_run_mode(b, p4)?;
    let (instrument_id, instrument_version, proto_version, p6) = read_instrument(b, p5)?;
    let (core_clock_hz, p7) = read_domain(b, p6)?;
    let (seed, p8) = read_seed(b, p7)?;
    let (header_summary, p9) = read_header(b, p8)?;
    let (sv, hash, clk, n, p10) = read_schema(b, p9)?;
    let c = Capture {
        tool_rev,
        dirty,
        deps,
        run_mode,
        instrument_id,
        instrument_version,
        proto_version,
        core_clock_hz,
        seed,
        header_summary,
        schema: Schema {
            format_version: fv,
            schema_version: sv,
            schema_hash: hash,
            core_clock_hz: clk,
            records: Vec::new(),
        },
        records: Vec::new(),
    };
    assert(c@.schema.records =~= Seq::<RecordModel>::empty());
    assert(c@.records =~= Seq::<RawRecord>::empty());
    Some((c, n, p10))
}

/// Reads the container line by line, with no check that it is written the
/// one way the writer writes it.
pub fn parse_capture(b: &[u8]) -> (r: Option<Capture>)
    ensures
        match r {
            None => crate::capture::read::capture_at(b@) is None,
            Some(c) => crate::capture::read::capture_at(b@) == Some(c@),
        },
{
    proof {
        reveal_strlit("END\n");
        reveal_strlit("END");
        assert(lit("END\n") =~= crate::capture::write::end_line() + nl());
    }
    let (mut c, n, p) = read_head(b)?;
    let (records, p2) = read_records(b, p, n)?;
    let (ne, p3) = read_events_line(b, p2)?;
    let (events, p4) = read_events(b, p3, ne)?;
    let _ = expect_lit(b, p4, "END\n")?;
    c.schema.records = records;
    c.records = events;
    Some(c)
}

} // verus!

verus! {

/// Whether two byte strings are equal.
pub fn bytes_eq(a: &[u8], b: &[u8]) -> (r: bool)
    ensures
        r == (a@ == b@),
{
    if a.len() != b.len() {
        return false;
    }
    let mut i: usize = 0;
    while i < a.len()
        invariant
            i <= a@.len(),
            a@.len() == b@.len(),
            forall|j: int| 0 <= j < i ==> a@[j] == b@[j],
        decreases a.len() - i,
    {
        if a[i] != b[i] {
            return false;
        }
        i = i + 1;
    }
    assert(a@ =~= b@);
    true
}

} // verus!
