//! The container's lines, and the writer.
use vstd::prelude::*;
use crate::capture::{Capture, RecordDef, CaptureModel, Encoding, FieldDef, FieldModel, RawRecord, RecordModel, RunMode, SchemaModel, encoding_token, run_mode_token};
use crate::text::{dec_digits, hex_digits, push_dec, push_hex};
use crate::wire::{lit, push_lit, push_str};
use vstd::utf8::encode_utf8;

verus! {

broadcast use vstd::seq::Seq::lemma_flatten_push;

pub open spec fn sp() -> Seq<u8> {
    seq![32u8]
}

pub open spec fn nl() -> Seq<u8> {
    seq![10u8]
}

pub open spec fn dec(n: nat) -> Seq<u8> {
    dec_digits(n)
}

pub open spec fn gate_line() -> Seq<u8> {
    lit("LUCID-CAPTURE v1")
}

pub open spec fn format_line(format_version: u16) -> Seq<u8> {
    lit("trace_format v") + dec(format_version as nat)
}

pub open spec fn tool_line(c: CaptureModel) -> Seq<u8> {
    lit("tool lucid-host ") + encode_utf8(c.tool_rev) + sp() + encode_utf8(c.dirty)
}

pub open spec fn deps_line(c: CaptureModel) -> Seq<u8> {
    lit("deps ") + encode_utf8(c.deps)
}

pub open spec fn run_mode_line(m: RunMode) -> Seq<u8> {
    lit("run_mode ") + lit(run_mode_token(m))
}

pub open spec fn instrument_line(c: CaptureModel) -> Seq<u8> {
    lit("instrument 0x") + hex_digits(c.instrument_id as nat, 4) + lit(" version ") + dec(
        c.instrument_version as nat,
    ) + lit(" proto ") + dec(c.proto_version as nat)
}

pub open spec fn domain_line(hz: u32) -> Seq<u8> {
    lit("timestamp_domain_hz ") + dec(hz as nat)
}

pub open spec fn seed_line(seed: Option<u32>) -> Seq<u8> {
    match seed {
        Some(s) => lit("seed 0x") + hex_digits(s as nat, 8),
        None => lit("seed none"),
    }
}

pub open spec fn header_line(h: Option<Seq<char>>) -> Seq<u8> {
    match h {
        Some(t) => lit("header ") + encode_utf8(t),
        None => lit("header"),
    }
}

pub open spec fn schema_line(s: SchemaModel) -> Seq<u8> {
    lit("schema ") + dec(s.schema_version as nat) + lit(" 0x") + hex_digits(s.schema_hash as nat, 16)
        + sp() + dec(s.core_clock_hz as nat) + sp() + dec(s.records.len())
}

pub open spec fn field_line(f: FieldModel) -> Seq<u8> {
    lit("field ") + dec(f.offset as nat) + sp() + dec(f.width as nat) + sp() + lit(
        encoding_token(f.encoding),
    ) + sp() + encode_utf8(f.name)
}

pub open spec fn record_line(r: RecordModel) -> Seq<u8> {
    lit("record ") + dec(r.tag as nat) + sp() + dec(r.fields.len()) + sp() + encode_utf8(r.name)
}

pub open spec fn events_line(n: nat) -> Seq<u8> {
    lit("events ") + dec(n)
}

pub open spec fn event_line(r: RawRecord) -> Seq<u8> {
    hex_digits(r.tag as nat, 2) + sp() + hex_digits(r.timestamp as nat, 8) + sp() + hex_digits(
        r.payload_bits as nat,
        4,
    ) + sp() + hex_digits(r.payload as nat, 32)
}

pub open spec fn end_line() -> Seq<u8> {
    lit("END")
}

/// The field lines of a record layout.
pub open spec fn fields_text(fs: Seq<FieldModel>) -> Seq<u8> {
    fs.map_values(|f: FieldModel| field_line(f) + nl()).flatten()
}

/// A record layout: its record line, then its field lines.
pub open spec fn record_text(r: RecordModel) -> Seq<u8> {
    record_line(r) + nl() + fields_text(r.fields)
}

pub open spec fn records_text(rs: Seq<RecordModel>) -> Seq<u8> {
    rs.map_values(|r: RecordModel| record_text(r)).flatten()
}

pub open spec fn events_text(es: Seq<RawRecord>) -> Seq<u8> {
    es.map_values(|e: RawRecord| event_line(e) + nl()).flatten()
}

/// The header lines, the version gate first.
pub open spec fn header_lines(c: CaptureModel) -> Seq<Seq<u8>> {
    seq![
        gate_line(),
        format_line(c.schema.format_version),
        tool_line(c),
        deps_line(c),
        run_mode_line(c.run_mode),
        instrument_line(c),
        domain_line(c.core_clock_hz),
        seed_line(c.seed),
        header_line(c.header_summary),
        schema_line(c.schema),
    ]
}

/// Lines joined, each ended by a newline.
pub open spec fn joined(lines: Seq<Seq<u8>>) -> Seq<u8> {
    lines.map_values(|l: Seq<u8>| l + nl()).flatten()
}

/// The container's bytes.
pub open spec fn capture_bytes(c: CaptureModel) -> Seq<u8> {
    joined(header_lines(c)) + records_text(c.schema.records) + events_line(c.records.len()) + nl()
        + events_text(c.records) + end_line() + nl()
}

pub fn push_nl(out: &mut Vec<u8>)
    ensures
        final(out)@ == old(out)@ + nl(),
{
    out.push(10u8);
    assert(old(out)@.push(10u8) =~= old(out)@ + nl());
}

pub fn push_sp(out: &mut Vec<u8>)
    ensures
        final(out)@ == old(out)@ + sp(),
{
    out.push(32u8);
    assert(old(out)@.push(32u8) =~= old(out)@ + sp());
}

fn write_fields(out: &mut Vec<u8>, fs: &Vec<FieldDef>)
    ensures
        final(out)@ == old(out)@ + fields_text(fs@.map_values(|f: FieldDef| f@)),
{
    let ghost fm = fs@.map_values(|f: FieldDef| f@);
    let mut i: usize = 0;
    while i < fs.len()
        invariant
            i <= fs@.len(),
            fm == fs@.map_values(|f: FieldDef| f@),
            out@ == old(out)@ + fields_text(fm.take(i as int)),
        decreases fs.len() - i,
    {
        let f = &fs[i];
        let ghost before = out@;
        proof {
            reveal_strlit("field ");
            reveal_strlit("U");
            reveal_strlit("HEX");
            reveal_strlit("ENUM");
        }
        push_lit(out, "field ");
        push_dec(out, f.offset as u64);
        push_sp(out);
        push_dec(out, f.width as u64);
        push_sp(out);
        match f.encoding {
            Encoding::U => push_lit(out, "U"),
            Encoding::Hex => push_lit(out, "HEX"),
            Encoding::Enum => push_lit(out, "ENUM"),
        }
        push_sp(out);
        push_str(out, f.name.as_str());
        push_nl(out);
        assert(out@ =~= before + (field_line(fm[i as int]) + nl()));
        assert(fm.take(i + 1).map_values(|g: FieldModel| field_line(g) + nl()) =~= fm.take(
            i as int,
        ).map_values(|g: FieldModel| field_line(g) + nl()).push(field_line(fm[i as int]) + nl()));
        i = i + 1;
    }
    assert(fm.take(fs@.len() as int) =~= fm);
}

} // verus!

verus! {

fn write_records(out: &mut Vec<u8>, rs: &Vec<RecordDef>)
    ensures
        final(out)@ == old(out)@ + records_text(rs@.map_values(|r: RecordDef| r@)),
{
    let ghost rm = rs@.map_values(|r: RecordDef| r@);
    let mut i: usize = 0;
    while i < rs.len()
        invariant
            i <= rs@.len(),
            rm == rs@.map_values(|r: RecordDef| r@),
            out@ == old(out)@ + records_text(rm.take(i as int)),
        decreases rs.len() - i,
    {
        let r = &rs[i];
        let ghost before = out@;
        proof {
            reveal_strlit("record ");
        }
        push_lit(out, "record ");
        push_dec(out, r.tag as u64);
        push_sp(out);
        push_dec(out, r.fields.len() as u64);
        push_sp(out);
        push_str(out, r.name.as_str());
        push_nl(out);
        write_fields(out, &r.fields);
        assert(out@ =~= before + record_text(rm[i as int]));
        assert(rm.take(i + 1).map_values(|g: RecordModel| record_text(g)) =~= rm.take(
            i as int,
        ).map_values(|g: RecordModel| record_text(g)).push(record_text(rm[i as int])));
        i = i + 1;
    }
    assert(rm.take(rs@.len() as int) =~= rm);
}

fn write_events(out: &mut Vec<u8>, es: &Vec<RawRecord>)
    ensures
        final(out)@ == old(out)@ + events_text(es@),
{
    let mut i: usize = 0;
    while i < es.len()
        invariant
            i <= es@.len(),
            out@ == old(out)@ + events_text(es@.take(i as int)),
        decreases es.len() - i,
    {
        let e = es[i];
        let ghost before = out@;
        push_hex(out, e.tag as u128, 2);
        push_sp(out);
        push_hex(out, e.timestamp as u128, 8);
        push_sp(out);
        push_hex(out, e.payload_bits as u128, 4);
        push_sp(out);
        push_hex(out, e.payload, 32);
        push_nl(out);
        assert(out@ =~= before + (event_line(es@[i as int]) + nl()));
        assert(es@.take(i + 1).map_values(|g: RawRecord| event_line(g) + nl()) =~= es@.take(
            i as int,
        ).map_values(|g: RawRecord| event_line(g) + nl()).push(event_line(es@[i as int]) + nl()));
        i = i + 1;
    }
    assert(es@.take(es@.len() as int) =~= es@);
}

pub proof fn lemma_joined_push(ls: Seq<Seq<u8>>, l: Seq<u8>)
    ensures
        joined(ls.push(l)) == joined(ls) + l + nl(),
{
    assert(ls.push(l).map_values(|x: Seq<u8>| x + nl()) =~= ls.map_values(|x: Seq<u8>| x + nl()).push(
        l + nl(),
    ));
    assert(joined(ls) + (l + nl()) =~= joined(ls) + l + nl());
}

/// Ten lines joined.
pub proof fn lemma_joined_ten(ls: Seq<Seq<u8>>)
    requires
        ls.len() == 10,
    ensures
        joined(ls) == ls[0] + nl() + ls[1] + nl() + ls[2] + nl() + ls[3] + nl() + ls[4] + nl()
            + ls[5] + nl() + ls[6] + nl() + ls[7] + nl() + ls[8] + nl() + ls[9] + nl(),
{
    assert(joined(Seq::<Seq<u8>>::empty()) =~= Seq::<u8>::empty());
    lemma_joined_push(ls.take(0), ls[0]);
    assert(ls.take(1) =~= ls.take(0).push(ls[0]));
    lemma_joined_push(ls.take(1), ls[1]);
    assert(ls.take(2) =~= ls.take(1).push(ls[1]));
    lemma_joined_push(ls.take(2), ls[2]);
    assert(ls.take(3) =~= ls.take(2).push(ls[2]));
    lemma_joined_push(ls.take(3), ls[3]);
    assert(ls.take(4) =~= ls.take(3).push(ls[3]));
    lemma_joined_push(ls.take(4), ls[4]);
    assert(ls.take(5) =~= ls.take(4).push(ls[4]));
    lemma_joined_push(ls.take(5), ls[5]);
    assert(ls.take(6) =~= ls.take(5).push(ls[5]));
    lemma_joined_push(ls.take(6), ls[6]);
    assert(ls.take(7) =~= ls.take(6).push(ls[6]));
    lemma_joined_push(ls.take(7), ls[7]);
    assert(ls.take(8) =~= ls.take(7).push(ls[7]));
    lemma_joined_push(ls.take(8), ls[8]);
    assert(ls.take(9) =~= ls.take(8).push(ls[8]));
    lemma_joined_push(ls.take(9), ls[9]);
    assert(ls.take(10) =~= ls.take(9).push(ls[9]));
    assert(ls.take(10) =~= ls);
}

impl Capture {
    fn write_provenance(&self, out: &mut Vec<u8>)
        ensures
            final(out)@ == old(out)@ + gate_line() + nl() + format_line(self.schema.format_version)
                + nl() + tool_line(self@) + nl() + deps_line(self@) + nl() + run_mode_line(
                self.run_mode,
            ) + nl(),
    {
        proof {
            reveal_strlit("LUCID-CAPTURE v1");
            reveal_strlit("trace_format v");
            reveal_strlit("tool lucid-host ");
            reveal_strlit("deps ");
            reveal_strlit("run_mode ");
            reveal_strlit("SD");
            reveal_strlit("JTAG");
            reveal_strlit("SIM");
        }
        push_lit(out, "LUCID-CAPTURE v1");
        push_nl(out);
        push_lit(out, "trace_format v");
        push_dec(out, self.schema.format_version as u64);
        push_nl(out);
        push_lit(out, "tool lucid-host ");
        push_str(out, self.tool_rev.as_str());
        push_sp(out);
        push_str(out, self.dirty.as_str());
        push_nl(out);
        push_lit(out, "deps ");
        push_str(out, self.deps.as_str());
        push_nl(out);
        push_lit(out, "run_mode ");
        push_lit(out, self.run_mode.as_str());
        push_nl(out);
        assert(final(out)@ =~= old(out)@ + gate_line() + nl() + format_line(
            self.schema.format_version,
        ) + nl() + tool_line(self@) + nl() + deps_line(self@) + nl() + run_mode_line(self.run_mode)
            + nl());
    }

    fn write_instrument(&self, out: &mut Vec<u8>)
        ensures
            final(out)@ == old(out)@ + instrument_line(self@) + nl(),
    {
        proof {
            reveal_strlit("instrument 0x");
            reveal_strlit(" version ");
            reveal_strlit(" proto ");
        }
        push_lit(out, "instrument 0x");
        push_hex(out, self.instrument_id as u128, 4);
        push_lit(out, " version ");
        push_dec(out, self.instrument_version as u64);
        push_lit(out, " proto ");
        push_dec(out, self.proto_version as u64);
        push_nl(out);
        assert(final(out)@ =~= old(out)@ + instrument_line(self@) + nl());
    }

    fn write_domain(&self, out: &mut Vec<u8>)
        ensures
            final(out)@ == old(out)@ + domain_line(self.core_clock_hz) + nl(),
    {
        proof {
            reveal_strlit("timestamp_domain_hz ");
        }
        push_lit(out, "timestamp_domain_hz ");
        push_dec(out, self.core_clock_hz as u64);
        push_nl(out);
        assert(final(out)@ =~= old(out)@ + domain_line(self.core_clock_hz) + nl());
    }

    fn write_seed(&self, out: &mut Vec<u8>)
        ensures
            final(out)@ == old(out)@ + seed_line(self.seed) + nl(),
    {
        proof {
            reveal_strlit("seed 0x");
            reveal_strlit("seed none");
        }
        match self.seed {
            Some(s) => {
                push_lit(out, "seed 0x");
                push_hex(out, s as u128, 8);
            },
            None => {
                push_lit(out, "seed none");
            },
        }
        push_nl(out);
        assert(final(out)@ =~= old(out)@ + seed_line(self.seed) + nl());
    }

    fn write_header_summary(&self, out: &mut Vec<u8>)
        ensures
            final(out)@ == old(out)@ + header_line(self@.header_summary) + nl(),
    {
        proof {
            reveal_strlit("header ");
            reveal_strlit("header");
        }
        match &self.header_summary {
            Some(t) => {
                push_lit(out, "header ");
                push_str(out, t.as_str());
            },
            None => {
                push_lit(out, "header");
            },
        }
        push_nl(out);
        assert(final(out)@ =~= old(out)@ + header_line(self@.header_summary) + nl());
    }

    fn write_schema_line(&self, out: &mut Vec<u8>)
        ensures
            final(out)@ == old(out)@ + schema_line(self.schema@) + nl(),
    {
        proof {
            reveal_strlit("schema ");
            reveal_strlit(" 0x");
        }
        push_lit(out, "schema ");
        push_dec(out, self.schema.schema_version as u64);
        push_lit(out, " 0x");
        push_hex(out, self.schema.schema_hash as u128, 16);
        push_sp(out);
        push_dec(out, self.schema.core_clock_hz as u64);
        push_sp(out);
        push_dec(out, self.schema.records.len() as u64);
        push_nl(out);
        assert(final(out)@ =~= old(out)@ + schema_line(self.schema@) + nl());
    }

    /// The container in the versioned line-oriented v1 format.
    pub fn to_bytes(&self) -> (b: Vec<u8>)
        ensures
            b@ == capture_bytes(self@),
    {
        let mut out: Vec<u8> = Vec::new();
        self.write_provenance(&mut out);
        self.write_instrument(&mut out);
        self.write_domain(&mut out);
        self.write_seed(&mut out);
        self.write_header_summary(&mut out);
        self.write_schema_line(&mut out);
        proof {
            lemma_joined_ten(header_lines(self@));
            assert(out@ =~= joined(header_lines(self@)));
            reveal_strlit("events ");
            reveal_strlit("END");
        }
        write_records(&mut out, &self.schema.records);
        push_lit(&mut out, "events ");
        push_dec(&mut out, self.records.len() as u64);
        push_nl(&mut out);
        write_events(&mut out, &self.records);
        push_lit(&mut out, "END");
        push_nl(&mut out);
        out
    }
}

} // verus!
