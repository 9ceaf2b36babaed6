//! The capture container, v1: a versioned, line-oriented, self-describing
//! format. A header carries the full provenance (tool revision and dirty
//! state, dependency stack), the run mode, the instrument's identity, the
//! timestamp domain and the seed, then the record schema; the records follow
//! raw, so the container is lossless and instrument-agnostic.
//!
//! The first line is the version gate: a reader refuses a headerless file,
//! and refuses a file whose version it does not implement.
//!
//! ```text
//! LUCID-CAPTURE v1
//! trace_format v{format_version}
//! tool lucid-host {tool_rev} {dirty}
//! deps {deps}
//! run_mode {SD|JTAG|SIM}
//! instrument 0x{id:04X} version {version} proto {proto}
//! timestamp_domain_hz {hz}
//! seed none | seed 0x{seed:08X}
//! header | header {summary}
//! schema {schema_version} 0x{hash:016X} {core_clock_hz} {record kinds}
//! record {tag} {fields} {name}                      (per record kind)
//! field {offset} {width} {U|HEX|ENUM} {name}        (per field)
//! events {count}
//! {tag:02X} {timestamp:08X} {payload_bits:04X} {payload:032X}
//! END
//! ```
use vstd::prelude::*;

pub mod gate;
pub mod laws;
pub mod lines;
pub mod parse;
pub mod read;
pub mod write;

verus! {

/// The container format version. A reader refuses a file whose version it
/// does not implement, so the format can grow without silent misreads.
pub const CONTAINER_VERSION: u16 = 1;

/// The magic first token: its presence is what a reader checks before
/// trusting a byte.
pub const CONTAINER_MAGIC: &'static str = "LUCID-CAPTURE";

/// How the capture was produced (a claim about the platform requires SD; a
/// sim capture must say SIM).
#[derive(Debug, Clone, Copy, PartialEq, Eq)]
pub enum RunMode {
    /// SD-launched on real silicon: the only mode that can make a platform
    /// claim.
    Sd,
    /// JTAG-configured (development) on real silicon.
    Jtag,
    /// A simulated transport: never a platform claim.
    Sim,
}

/// The header token of each run mode.
pub open spec fn run_mode_token(m: RunMode) -> &'static str {
    match m {
        RunMode::Sd => "SD",
        RunMode::Jtag => "JTAG",
        RunMode::Sim => "SIM",
    }
}

impl RunMode {
    /// The token written to and read from the header.
    pub fn as_str(&self) -> (s: &'static str)
        ensures
            s == run_mode_token(*self),
    {
        match self {
            RunMode::Sd => "SD",
            RunMode::Jtag => "JTAG",
            RunMode::Sim => "SIM",
        }
    }
}

/// One region's raw payload.
#[derive(Debug, Clone)]
pub struct RegionPayload {
    /// The region index.
    pub id: u8,
    /// The region's ASCII tag (e.g. `RING`, `HEAD`).
    pub tag: String,
    /// The region's 32-bit words, verbatim.
    pub words: Vec<u32>,
}

/// How a field's bits are to be read.
#[derive(Debug, Clone, Copy, PartialEq, Eq)]
pub enum Encoding {
    /// An unsigned number.
    U,
    /// An unsigned number shown in hexadecimal.
    Hex,
    /// A code from an enumeration.
    Enum,
}

/// The header token of each encoding.
pub open spec fn encoding_token(e: Encoding) -> &'static str {
    match e {
        Encoding::U => "U",
        Encoding::Hex => "HEX",
        Encoding::Enum => "ENUM",
    }
}

/// One field of a record layout: `width` bits at bit `offset` of the
/// payload.
#[derive(Debug, Clone)]
pub struct FieldDef {
    pub name: String,
    pub offset: u16,
    pub width: u16,
    pub encoding: Encoding,
}

pub struct FieldModel {
    pub name: Seq<char>,
    pub offset: u16,
    pub width: u16,
    pub encoding: Encoding,
}

impl View for FieldDef {
    type V = FieldModel;

    open spec fn view(&self) -> FieldModel {
        FieldModel {
            name: self.name@,
            offset: self.offset,
            width: self.width,
            encoding: self.encoding,
        }
    }
}

/// One record layout, keyed by the record's tag.
#[derive(Debug, Clone)]
pub struct RecordDef {
    pub tag: u8,
    pub name: String,
    pub fields: Vec<FieldDef>,
}

pub struct RecordModel {
    pub tag: u8,
    pub name: Seq<char>,
    pub fields: Seq<FieldModel>,
}

impl View for RecordDef {
    type V = RecordModel;

    open spec fn view(&self) -> RecordModel {
        RecordModel {
            tag: self.tag,
            name: self.name@,
            fields: self.fields@.map_values(|f: FieldDef| f@),
        }
    }
}

/// The schema that describes the records' layout, so that a consumer
/// decodes them with no instrument-specific code.
#[derive(Debug, Clone)]
pub struct Schema {
    pub format_version: u16,
    pub schema_version: u16,
    pub schema_hash: u64,
    pub core_clock_hz: u32,
    pub records: Vec<RecordDef>,
}

pub struct SchemaModel {
    pub format_version: u16,
    pub schema_version: u16,
    pub schema_hash: u64,
    pub core_clock_hz: u32,
    pub records: Seq<RecordModel>,
}

impl View for Schema {
    type V = SchemaModel;

    open spec fn view(&self) -> SchemaModel {
        SchemaModel {
            format_version: self.format_version,
            schema_version: self.schema_version,
            schema_hash: self.schema_hash,
            core_clock_hz: self.core_clock_hz,
            records: self.records@.map_values(|r: RecordDef| r@),
        }
    }
}

/// One raw record: a tag, a timestamp, and up to 128 payload bits.
#[derive(Debug, Clone, Copy, PartialEq, Eq)]
pub struct RawRecord {
    pub tag: u8,
    pub timestamp: u32,
    pub payload: u128,
    pub payload_bits: u16,
}

/// A v1 capture container.
#[derive(Debug, Clone)]
pub struct Capture {
    /// The tool's own revision.
    pub tool_rev: String,
    /// `dirty` if the tool's tree had uncommitted changes at build, else
    /// `clean`.
    pub dirty: String,
    /// Each composed dependency and its revision.
    pub deps: String,
    /// How the capture was produced.
    pub run_mode: RunMode,
    /// The IDENT instrument id (`0x0001` = O1).
    pub instrument_id: u16,
    /// The IDENT instrument version.
    pub instrument_version: u32,
    /// The LIN proto version the instrument answered.
    pub proto_version: u16,
    /// The fabric core clock in Hz: the timestamp domain.
    pub core_clock_hz: u32,
    /// The asset seed, where the capture drove a randomized delivery; `None`
    /// for a pure observation.
    pub seed: Option<u32>,
    /// A one-line summary of the instrument's header, where its decoder
    /// gives one.
    pub header_summary: Option<String>,
    /// The layout of the records.
    pub schema: Schema,
    /// The records, raw.
    pub records: Vec<RawRecord>,
}

pub struct CaptureModel {
    pub tool_rev: Seq<char>,
    pub dirty: Seq<char>,
    pub deps: Seq<char>,
    pub run_mode: RunMode,
    pub instrument_id: u16,
    pub instrument_version: u32,
    pub proto_version: u16,
    pub core_clock_hz: u32,
    pub seed: Option<u32>,
    pub header_summary: Option<Seq<char>>,
    pub schema: SchemaModel,
    pub records: Seq<RawRecord>,
}

pub open spec fn opt_text(t: Option<String>) -> Option<Seq<char>> {
    match t {
        Some(s) => Some(s@),
        None => None,
    }
}

impl View for Capture {
    type V = CaptureModel;

    open spec fn view(&self) -> CaptureModel {
        CaptureModel {
            tool_rev: self.tool_rev@,
            dirty: self.dirty@,
            deps: self.deps@,
            run_mode: self.run_mode,
            instrument_id: self.instrument_id,
            instrument_version: self.instrument_version,
            proto_version: self.proto_version,
            core_clock_hz: self.core_clock_hz,
            seed: self.seed,
            header_summary: opt_text(self.header_summary),
            schema: self.schema@,
            records: self.records@,
        }
    }
}

} // verus!

verus! {

/// The words of a refusal of bytes that pass the version check but are not a
/// container as the writer writes it.
pub open spec fn malformed_detail() -> Seq<char> {
    "malformed capture: the body is not a v1 container"@
}

/// `e` is the refusal a reader gives `bytes` that hold no container: the
/// version check's or the header's refusal where they refuse, else a malformed body.
pub open spec fn is_read_refusal(e: crate::error::HostError, bytes: Seq<u8>) -> bool {
    match gate::gate_verdict(bytes) {
        Some(m) => e matches crate::error::HostError::Refused(d) && d@ == m,
        None => e matches crate::error::HostError::Decode(d) && d@ == malformed_detail(),
    }
}

/// The bytes are a container, as the writer writes it.
pub open spec fn holds_capture(bytes: Seq<u8>) -> bool {
    exists|c: CaptureModel| read::capture_ok(c) && #[trigger] write::capture_bytes(c) == bytes
}

/// The capture that bytes holding a container hold.
pub open spec fn capture_in(bytes: Seq<u8>) -> CaptureModel {
    choose|c: CaptureModel| read::capture_ok(c) && #[trigger] write::capture_bytes(c) == bytes
}

impl Capture {
    /// A v1 capture container of build-derived provenance and an
    /// instrument's identity, schema and records.
    pub fn new(
        provenance: &crate::provenance::Provenance,
        run_mode: RunMode,
        instrument_id: u16,
        instrument_version: u32,
        proto_version: u16,
        core_clock_hz: u32,
        seed: Option<u32>,
        header_summary: Option<String>,
        schema: Schema,
        records: Vec<RawRecord>,
    ) -> (c: Capture)
        ensures
            c.tool_rev@ == provenance.tool_rev@,
            c.dirty@ == provenance.dirty@,
            c.deps@ == provenance.deps@,
            c.run_mode == run_mode,
            c.instrument_id == instrument_id,
            c.instrument_version == instrument_version,
            c.proto_version == proto_version,
            c.core_clock_hz == core_clock_hz,
            c.seed == seed,
            c@.header_summary == opt_text(header_summary),
            c@.schema == schema@,
            c@.records == records@,
    {
        Capture {
            tool_rev: provenance.tool_rev.clone(),
            dirty: provenance.dirty.clone(),
            deps: provenance.deps.clone(),
            run_mode,
            instrument_id,
            instrument_version,
            proto_version,
            core_clock_hz,
            seed,
            header_summary,
            schema,
            records,
        }
    }

    /// Reads a v1 container. A container is read back exactly when the
    /// bytes are the container the writer writes for it, which they are for
    /// every capture whose texts (UTF-8) hold no newline and whose tool
    /// revision holds no space either; anything else is
    /// refused before it is trusted: a file with no version gate, a version
    /// this reader does not implement, a header that lacks a required field
    /// (named), or else a malformed body.
    pub fn read(bytes: &[u8]) -> (r: Result<Capture, crate::error::HostError>)
        ensures
            r matches Ok(c) ==> write::capture_bytes(c@) == bytes@ && read::capture_ok(c@),
            forall|c: CaptureModel|
                read::capture_ok(c) && #[trigger] write::capture_bytes(c) == bytes@ ==> (r matches Ok(
                    d,
                ) && d@ == c),
            r matches Err(e) ==> is_read_refusal(e, bytes@),
    {
        if let Some(c) = parse::parse_capture(bytes) {
            let out = c.to_bytes();
            if parse::bytes_eq(out.as_slice(), bytes) {
                proof {
                    read::lemma_parsed_ok(bytes@);
                    assert forall|c2: CaptureModel|
                        read::capture_ok(c2) && #[trigger] write::capture_bytes(c2)
                            == bytes@ implies c2 == c@ by {
                        read::lemma_capture_at(c2);
                    }
                }
                return Ok(c);
            }
        }
        proof {
            assert forall|c2: CaptureModel|
                read::capture_ok(c2) && #[trigger] write::capture_bytes(c2) == bytes@ implies false by {
                read::lemma_capture_at(c2);
                read::lemma_parsed_ok(bytes@);
            }
        }
        match gate::check_gate(bytes) {
            Some(m) => Err(crate::error::HostError::Refused(m)),
            None => Err(
                crate::error::HostError::Decode(
                    String::from_str("malformed capture: the body is not a v1 container"),
                ),
            ),
        }
    }
}

} // verus!
