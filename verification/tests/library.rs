//! The library's own checks: each law on concrete values, each formula's
//! exact result, each error variant, and the edges the decoders handle.

use lucid_host::boot::{command_name, decode, field_u32, BootRecord, DecodedRecord, FieldValue};
use lucid_host::capture::{Capture, Encoding, RunMode};
use lucid_host::decoder::{
    o1_event_schema, o1_records, pack_o1_event, registry_index, render_ring, render_status,
    to_one_line, Ctrl, CtrlBit, O1Decoder, O1Event, O1Status, Policy, O1_EVENT_TAG,
};
use lucid_host::diff;
use lucid_host::diff::Diff;
use lucid_host::error::{exit, HostError, SldError};
use lucid_host::host::{region_words, vdrs_to_drain};
use lucid_host::provenance::Provenance;
use lucid_host::render;
use lucid_host::render::{Enumeration, HubNode, Ident, O1Header, RegionInfo};

fn write(addr: u32, data: u32, seq: u32) -> Option<DecodedRecord> {
    Some(DecodedRecord {
        timestamp: seq * 10,
        addr: Some(FieldValue::Hex(addr as u128)),
        data: Some(FieldValue::Hex(data as u128)),
        seq: Some(FieldValue::U(seq as u128)),
    })
}

fn provenance(deps: &str) -> Provenance {
    Provenance {
        tool_rev: "3f9c2a17".to_string(),
        dirty: "clean".to_string(),
        deps: deps.to_string(),
    }
}

fn ev(ts: u32, addr: u32, data: u32, seq: u32) -> O1Event {
    O1Event { timestamp: ts, addr, data, kind: 1, flags: 0, seq, empty: false }
}

fn head() -> O1Header {
    O1Header {
        core_rev: "f4f442d2".to_string(),
        ring_depth: 4096,
        words_per_event: 4,
        ring_policy: "STOP".to_string(),
        armed: true,
        overflowed: false,
        event_count: 2,
        dropped_count: 0,
        rollover_count: 1,
        filter: "all".to_string(),
    }
}

fn capture(seed: Option<u32>, header: Option<String>, events: &[O1Event]) -> Capture {
    Capture::new(
        &provenance("lucid-sld@8d1e0b44,o1host@5b7e66d2"),
        RunMode::Jtag,
        0x0001,
        3,
        1,
        50_000_000,
        seed,
        header,
        o1_event_schema(50_000_000),
        o1_records(events, events.len()),
    )
}

fn two_events() -> Vec<O1Event> {
    vec![ev(100, 0xF800_0000, 0x82, 1), ev(204, 0x1000_0000, 0x10, 2)]
}

// ---- the boot decoder ----

fn boot_stream() -> Vec<Option<DecodedRecord>> {
    vec![
        write(0xF800_0000, 0x434D_0000, 1), // Request Status
        write(0xF800_0020, 0, 2),           // param 0: slot id
        write(0xF800_0024, 0x1000, 3),      // param 1: size
        write(0xF800_0000, 0x434D_0082, 4), // Data Slot Request Write
        write(0xF800_2000, 0, 5),           // descriptor id
        write(0xF800_2004, 0x1000, 6),      // descriptor size
        write(0x0000_0000, 1, 7),           // slot 0 payload
        write(0x0000_0004, 2, 8),
        None, // a record that did not decode
        Some(DecodedRecord {
            timestamp: 85,
            addr: Some(FieldValue::Hex(0)),
            data: None,
            seq: Some(FieldValue::U(9)),
        }), // an exception record: no data
        write(0x0000_0008, 3, 9),
        write(0x1000_0000, 5, 10),          // slot 1 payload: a new run
        write(0xF800_0000, 0x1234_0011, 11), // untagged: no command, ends the run
        write(0xF800_0000, 0x434D_0011, 12), // Reset Exit
        write(0x2000_0000, 9, 13),          // slot 2 payload, left open
    ]
}

#[test]
fn boot_decode_reproduces_commands_descriptors_and_deliveries() {
    let rec = decode(&boot_stream());
    let codes: Vec<u16> = rec.commands.iter().map(|c| c.code).collect();
    assert_eq!(codes, vec![0x0000, 0x0082, 0x0011]);
    assert_eq!(rec.commands[0].params, [0, 0, 0, 0]);
    assert_eq!(rec.commands[1].params, [0, 0x1000, 0, 0]);
    assert_eq!(rec.commands[1].seq, 4);
    assert_eq!(rec.commands[1].timestamp, 40);
    let descs: Vec<(u32, u32, u32)> =
        rec.descriptors.iter().map(|d| (d.slot_id, d.size, d.seq)).collect();
    assert_eq!(descs, vec![(0, 0x1000, 5)]);
    let runs: Vec<(u32, u32, u32)> =
        rec.deliveries.iter().map(|d| (d.base, d.writes, d.first_seq)).collect();
    assert_eq!(runs, vec![(0x0000_0000, 3, 7), (0x1000_0000, 1, 10), (0x2000_0000, 1, 13)]);
}

#[test]
fn boot_deliveries_account_for_every_payload_write() {
    let rec = decode(&boot_stream());
    let total: u32 = rec.deliveries.iter().map(|d| d.writes).sum();
    assert_eq!(total, 5, "five payload writes, each in exactly one run");
    assert!(rec.deliveries.iter().all(|d| d.writes >= 1));
}

#[test]
fn boot_gives_one_command_per_tagged_command_word() {
    let rec = decode(&boot_stream());
    // four writes to the command word, one of them without the 'CM' tag
    assert_eq!(rec.commands.len(), 3);
}

#[test]
fn boot_descriptor_size_write_must_follow_its_own_id_write() {
    let rec = decode(&[
        write(0xF800_2008, 1, 1), // id of slot 1's entry
        write(0xF800_2004, 0x20, 2), // size of slot 0's entry: no pair
        write(0xF800_200C, 0x40, 3), // slot 1's size, but the pending id was dropped
    ]);
    assert!(rec.descriptors.is_empty());
}

#[test]
fn boot_of_nothing_is_the_empty_account() {
    assert_eq!(decode(&[]), BootRecord::default());
}

#[test]
fn field_values_fit_in_32_bits_or_are_passed_over() {
    assert_eq!(field_u32(Some(FieldValue::U(5))), Some(5));
    assert_eq!(field_u32(Some(FieldValue::Enum(0xFFFF_FFFF))), Some(0xFFFF_FFFF));
    assert_eq!(field_u32(Some(FieldValue::Hex(1u128 << 40))), None);
    assert_eq!(field_u32(Some(FieldValue::Other)), None);
    assert_eq!(field_u32(None), None);
}

#[test]
fn command_names_follow_the_documented_vocabulary() {
    assert_eq!(command_name(0x0000), "Request Status");
    assert_eq!(command_name(0x0082), "Data Slot Request Write");
    assert_eq!(command_name(0x00B8), "OS Notify: Display Mode");
    assert_eq!(command_name(0x0042), "(undocumented)");
}

// ---- the drain arithmetic ----

#[test]
fn vdr_count_rounds_up() {
    assert_eq!(vdrs_to_drain(10, 4), 3);
    assert_eq!(vdrs_to_drain(8, 4), 2);
    assert_eq!(vdrs_to_drain(5, 0), 5, "a region that says 0 words per shift is read as 1");
    assert_eq!(vdrs_to_drain(0, 4), 0);
    assert_eq!(vdrs_to_drain(u32::MAX, 1), u32::MAX);
    assert_eq!(vdrs_to_drain(u32::MAX, 2), 0x8000_0000);
}

#[test]
fn drained_words_are_cut_to_the_region() {
    assert_eq!(region_words(vec![1, 2, 3, 4, 5, 6], 5), vec![1, 2, 3, 4, 5]);
    assert_eq!(region_words(vec![1, 2], 5), vec![1, 2]);
}

// ---- renders ----

#[test]
fn magic_reads_little_endian() {
    assert_eq!(render::magic_ascii(0x4441_4548), "HEAD");
}

#[test]
fn ident_render_is_exact() {
    let id = Ident {
        magic: 0x4441_4548,
        proto_version: 1,
        instrument_id: 1,
        instrument_version: 3,
        core_clock_hz: 74_250_000,
        region_count: 2,
        caps: 5,
    };
    assert_eq!(
        render::ident(&id),
        "[IDENT] magic=\"HEAD\" proto=1 instrument=0x0001 version=3 clk=74250000 Hz\n\
         [IDENT] regions=2 caps=0b101"
    );
    let wide = Ident { caps: 12, ..id };
    assert!(render::ident(&wide).ends_with("caps=0b1100"));
    let narrow = Ident { caps: 1, ..id };
    assert!(render::ident(&narrow).ends_with("caps=0b001"));
}

#[test]
fn enumeration_render_is_exact() {
    let e = Enumeration {
        n: 1,
        m: 8,
        vir_len: 5,
        nodes: vec![
            HubNode { address: 1, node_id: 0x22, manufacturer: 0x6E, instance: 0 },
            HubNode { address: 2, node_id: 0x5, manufacturer: 0x6E, instance: 1 },
        ],
    };
    assert_eq!(
        render::enumeration(&e),
        "[hub]   N=2 n=1 m=8 vir_len=5\n\
         [node]  addr=1 type=0x22 mfg=0x06E inst=0\n\
         [node]  addr=2 type=0x05 mfg=0x06E inst=1"
    );
}

#[test]
fn region_render_is_exact() {
    let ri = RegionInfo {
        tag: "RING".to_string(),
        word_width: 32,
        word_count: 16384,
        words_per_vdr: 2,
        base_addr: 0x1000,
    };
    assert_eq!(
        render::region(1, &ri),
        "[region 1] tag=\"RING\" 32-bit x 16384 words_per_vdr=2 base=0x00001000"
    );
}

#[test]
fn raw_region_render_is_exact() {
    assert_eq!(
        render::raw_region(3, &[0xDEAD_BEEF, 7]),
        "[region 3] UNDECODED (2 words)\n  [   0] 0xDEADBEEF\n  [   1] 0x00000007"
    );
    assert_eq!(render::raw_region(0, &[]), "[region 0] UNDECODED (0 words)");
}

#[test]
fn o1_header_render_is_exact() {
    assert_eq!(
        render::o1_header(&head()),
        "core_rev=f4f442d2 ring=4096x4w policy=STOP armed=1 overflowed=0 events=2 dropped=0 \
         rollovers=1\n  filter: all"
    );
}

#[test]
fn header_summary_is_the_header_on_one_line() {
    let s = O1Decoder.header_summary(Ok(head())).expect("a decoded HEAD summarises");
    assert!(!s.contains('\n'));
    assert_eq!(s, render::o1_header(&head()).replace('\n', " "));
    assert_eq!(O1Decoder.header_summary(Err("short".to_string())), None);
    assert_eq!(to_one_line("a\nb\n"), "a b ");
}

#[test]
fn a_head_fault_names_itself() {
    match O1Decoder.render_header(Err("no trailing magic".to_string())) {
        Err(HostError::Decode(m)) => assert_eq!(m, "O1 HEAD: no trailing magic"),
        other => panic!("expected a decode fault, got {other:?}"),
    }
}

#[test]
fn status_render_is_exact() {
    assert_eq!(render_status(None), "status: short read");
    let st = O1Status {
        armed: true,
        overflowed: false,
        wrapped_ever: true,
        ring_full: false,
        policy_wrap: true,
        heartbeat: 42,
    };
    assert_eq!(
        render_status(Some(st)),
        "armed=1 overflowed=0 wrapped_ever=1 ring_full=0 policy=WRAP heartbeat=42"
    );
    let stop = O1Status { policy_wrap: false, ..st };
    assert!(render_status(Some(stop)).contains("policy=STOP"));
}

#[test]
fn ring_render_lists_the_events_that_are_not_empty() {
    let mut empty = ev(0, 0, 0, 0);
    empty.empty = true;
    let events = vec![ev(100, 0xF800_0000, 0x82, 1), empty];
    let names = vec!["WRITE".to_string(), "-".to_string()];
    let words = [100, 0xF800_0000, 0x82, (1 << 28) | 1, 0, 0, 0, 0];
    assert_eq!(
        render_ring(&events, &names, &words),
        "2 events, 1 empty, non-zero words 4\n  \
         t=       100 WRITE        addr=0xF8000000 data=0x00000082 seq=1"
    );
}

// ---- records and schema ----

#[test]
fn an_event_packs_into_the_schema_layout() {
    let e = O1Event {
        timestamp: 7,
        addr: 0x1122_3344,
        data: 0x5566_7788,
        kind: 0x1F,
        flags: 0xAB,
        seq: 0x1F_FFFF,
        empty: false,
    };
    assert_eq!(pack_o1_event(&e), 0xFFFF_FABF_5566_7788_1122_3344);
}

#[test]
fn empty_slots_give_no_record() {
    let mut empty = ev(0, 0, 0, 0);
    empty.empty = true;
    let records = o1_records(&[ev(1, 2, 3, 4), empty, ev(5, 6, 7, 8)], 10);
    assert_eq!(records.len(), 2);
    assert_eq!(records[0].tag, O1_EVENT_TAG);
    assert_eq!(records[0].timestamp, 1);
    assert_eq!(records[0].payload_bits, 96);
    assert_eq!(records[1].timestamp, 5);
    assert!(o1_records(&[ev(1, 2, 3, 4)], 0).is_empty());
}

#[test]
fn the_o1_schema_describes_the_packing() {
    let s = o1_event_schema(74_250_000);
    assert_eq!(s.format_version, 1);
    assert_eq!(s.schema_version, 1);
    assert_eq!(s.schema_hash, 0);
    assert_eq!(s.core_clock_hz, 74_250_000);
    assert_eq!(s.records.len(), 1);
    let r = &s.records[0];
    assert_eq!((r.tag, r.name.as_str()), (1, "event"));
    let fields: Vec<(&str, u16, u16, Encoding)> =
        r.fields.iter().map(|f| (f.name.as_str(), f.offset, f.width, f.encoding)).collect();
    assert_eq!(
        fields,
        vec![
            ("addr", 0, 32, Encoding::Hex),
            ("data", 32, 32, Encoding::Hex),
            ("kind", 64, 4, Encoding::Enum),
            ("flags", 68, 8, Encoding::U),
            ("seq", 76, 20, Encoding::U),
        ]
    );
}

// ---- CTRL ----

#[test]
fn ctrl_nonces_alternate_within_and_across_actions() {
    let (w, n) = O1Decoder.ctrl_words(&Ctrl::Filter { kind_mask: 0xA, addr_lo: 0, addr_hi: u32::MAX }, false);
    let nonces: Vec<bool> = w.iter().map(|x| x.nonce).collect();
    assert_eq!(nonces, vec![false, true, false]);
    assert!(n, "the next write carries the other nonce");
    let values: Vec<u32> = w.iter().map(|x| x.value).collect();
    assert_eq!(values, vec![0xA, 0, u32::MAX]);
    assert_eq!(w[0].bits, vec![CtrlBit::FiltMask]);
    assert_eq!(w[1].bits, vec![CtrlBit::FiltLo]);
    assert_eq!(w[2].bits, vec![CtrlBit::FiltHi]);
    let (a, n2) = O1Decoder.ctrl_words(&Ctrl::Disarm, true);
    assert_eq!((a[0].bits.clone(), a[0].nonce, n2), (vec![CtrlBit::Disarm], true, false));
    let (c, _) = O1Decoder.ctrl_words(&Ctrl::Clear, false);
    assert_eq!(c[0].bits, vec![CtrlBit::Clear]);
    let (p, _) = O1Decoder.ctrl_words(&Ctrl::Policy(Policy::Wrap), false);
    assert_eq!(p[0].bits, vec![CtrlBit::PolicySet, CtrlBit::PolicyVal]);
}

#[test]
fn the_first_registered_decoder_serves() {
    assert_eq!(registry_index(&[7, 1, 1], 1), Some(1));
    assert_eq!(registry_index(&[7], 1), None);
}

// ---- errors ----

#[test]
fn each_error_class_has_its_exit_code_and_message() {
    let cases = [
        (HostError::Refused("x".to_string()), exit::REFUSED, "refused: x"),
        (HostError::Transport("x".to_string()), exit::TRANSPORT, "transport: x"),
        (HostError::Decode("x".to_string()), exit::DECODE, "decode: x"),
        (HostError::Usage("x".to_string()), exit::USAGE, "usage: x"),
    ];
    for (e, code, msg) in cases {
        assert_eq!(e.exit_code(), code);
        assert_eq!(e.message(), msg);
    }
}

#[test]
fn sld_errors_keep_the_boundary_transport_distinction() {
    let m = HostError::from_sld(SldError::Manufacturer { expected: 0x06E, got: 0x7FF });
    assert_eq!(
        m.message(),
        "refused: hub manufacturer 0x7FF is not Altera 0x06E (a device with no SLD hub reads 0x7FF)"
    );
    let p = HostError::from_sld(SldError::Protocol("bad magic".to_string()));
    assert_eq!((p.exit_code(), p.message()), (exit::REFUSED, "refused: protocol: bad magic".to_string()));
    let w = HostError::from_sld(SldError::Width { bits: 80, max: 64 });
    assert_eq!(w.message(), "transport: shift width 80 exceeds max 64");
    let t = HostError::from_sld(SldError::Transport("cable gone".to_string()));
    assert_eq!((t.exit_code(), t.message()), (exit::TRANSPORT, "transport: cable gone".to_string()));
}

// ---- provenance ----

#[test]
fn provenance_lines_and_local_path_warning() {
    let pinned = provenance("lucid-sld@8d1e0b44,o1host@5b7e66d2");
    assert!(!pinned.has_local_path_dep());
    assert_eq!(pinned.lines(), "tool: lucid-host 3f9c2a17 (clean)\ndeps: lucid-sld@8d1e0b44,o1host@5b7e66d2");
    assert_eq!(pinned.banner(), pinned.lines());
    let local = provenance("lucid-sld@8d1e0b44,o1host@LOCAL-PATH");
    assert!(local.has_local_path_dep());
    assert!(local.banner().ends_with("WARNING: a dependency resolved to a LOCAL-PATH \u{2014} this build is not reproducible"));
}

#[test]
fn dep_pairs_split_each_named_revision() {
    let p = provenance("lucid-sld@8d1e0b44,,blaster2@c2a9f310,stray,o1host@a@b");
    let pairs: Vec<(String, String)> = p.dep_pairs();
    let want: Vec<(String, String)> = vec![
        ("lucid-sld".to_string(), "8d1e0b44".to_string()),
        ("blaster2".to_string(), "c2a9f310".to_string()),
        ("o1host".to_string(), "a@b".to_string()),
    ];
    assert_eq!(pairs, want);
    assert!(provenance("").dep_pairs().is_empty());
}

// ---- the container ----

#[test]
fn a_capture_keeps_what_it_was_made_of() {
    let c = capture(Some(0xDEAD_BEEF), None, &two_events());
    assert_eq!(c.tool_rev, "3f9c2a17");
    assert_eq!(c.dirty, "clean");
    assert_eq!(c.run_mode, RunMode::Jtag);
    assert_eq!(c.instrument_version, 3);
    assert_eq!(c.seed, Some(0xDEAD_BEEF));
    assert_eq!(c.records.len(), 2);
    assert_eq!(RunMode::Sd.as_str(), "SD");
    assert_eq!(RunMode::Jtag.as_str(), "JTAG");
    assert_eq!(RunMode::Sim.as_str(), "SIM");
}

#[test]
fn the_container_round_trips_every_field() {
    let c = capture(Some(0xDEAD_BEEF), None, &two_events());
    let bytes = c.to_bytes();
    let text = String::from_utf8(bytes.clone()).expect("the container is text");
    assert!(text.contains("\nseed 0xDEADBEEF\n"));
    assert!(text.contains("\nrun_mode JTAG\n"));
    assert!(text.contains("\ninstrument 0x0001 version 3 proto 1\n"));
    assert!(text.ends_with("END\n"));
    let back = Capture::read(&bytes).expect("reads");
    assert_eq!(back.tool_rev, c.tool_rev);
    assert_eq!(back.dirty, c.dirty);
    assert_eq!(back.deps, c.deps);
    assert_eq!(back.seed, c.seed);
    assert_eq!(back.header_summary, None);
    assert_eq!(back.proto_version, 1);
    assert_eq!(back.schema.core_clock_hz, 50_000_000);
    assert_eq!(back.schema.records[0].fields.len(), 5);
    assert_eq!(back.records, c.records);
    assert_eq!(back.to_bytes(), bytes, "reading and writing again gives the same bytes");
}

#[test]
fn a_truncated_container_is_refused_as_malformed() {
    let bytes = capture(None, None, &two_events()).to_bytes();
    let cut = &bytes[..bytes.len() - 4];
    let err = Capture::read(cut).unwrap_err();
    assert_eq!(err.exit_code(), exit::DECODE);
}

#[test]
fn a_garbled_version_is_refused_as_headerless() {
    let err = Capture::read(b"LUCID-CAPTURE vX\n").unwrap_err();
    assert_eq!(err.exit_code(), exit::REFUSED);
    assert!(err.message().contains("version gate"));
}

// ---- diff ----

#[test]
fn header_fields_that_differ_are_listed_in_order() {
    let a = capture(Some(1), Some("x".to_string()), &two_events());
    let mut b = capture(None, None, &two_events());
    b.instrument_id = 0x2A;
    let d = diff::diff(&a, &b);
    let fields: Vec<(String, String, String)> =
        d.header.iter().map(|f| (f.field.clone(), f.a.clone(), f.b.clone())).collect();
    assert_eq!(
        fields,
        vec![
            ("instrument_id".to_string(), "0x0001".to_string(), "0x002A".to_string()),
            ("seed".to_string(), "Some(1)".to_string(), "None".to_string()),
            ("instrument_header".to_string(), "Some(\"x\")".to_string(), "None".to_string()),
        ]
    );
    assert_eq!(d.first_event, None);
}

#[test]
fn the_dirty_flag_and_the_schema_are_not_compared() {
    let a = capture(None, None, &two_events());
    let mut b = a.clone();
    b.dirty = "dirty".to_string();
    b.schema.schema_version = 9;
    assert!(diff::diff(&a, &b).is_empty());
}

#[test]
fn a_shorter_stream_diverges_at_its_end() {
    let a = capture(None, None, &two_events());
    let mut b = a.clone();
    b.records.truncate(1);
    let d = diff::diff(&a, &b);
    assert_eq!((d.events_a, d.events_b), (2, 1));
    assert_eq!(
        diff::render(&d),
        "diff: DIVERGENT\n  events: 2 vs 1\n  first event divergence at index 1: event count 2 vs 1"
    );
}

#[test]
fn a_differing_event_is_described() {
    let a = capture(None, None, &two_events());
    let mut b = a.clone();
    b.records[1].payload ^= 0xFF;
    b.run_mode = RunMode::Sd;
    let d = diff::diff(&a, &b);
    assert_eq!(
        diff::render(&d),
        "diff: DIVERGENT\n  header run_mode: JTAG != SD\n  events: 2 vs 2\n  \
         first event divergence at index 1: tag 1/1, t 204/204, \
         payload 0x20010000001010000000/0x200100000010100000FF"
    );
}

#[test]
fn the_default_diff_is_empty() {
    let d = Diff::default();
    assert!(d.is_empty());
    assert_eq!(diff::render(&d), "diff: IDENTICAL (headers and events match)");
}

#[test]
fn diff_refuses_side_b_when_side_a_reads() {
    let good = capture(None, None, &two_events()).to_bytes();
    let err = diff::diff_bytes(&good, b"LUCID-CAPTURE v7\n").unwrap_err();
    assert_eq!(err.exit_code(), exit::REFUSED);
    assert!(err.message().contains("version 7"));
}

#[test]
fn each_stripped_header_line_is_refused_by_name() {
    let bytes = capture(Some(7), Some("summary".to_string()), &two_events()).to_bytes();
    let keys = [
        "trace_format",
        "tool",
        "deps",
        "run_mode",
        "instrument",
        "timestamp_domain_hz",
        "seed",
        "header",
        "schema",
    ];
    let starts: Vec<usize> = std::iter::once(0)
        .chain(bytes.iter().enumerate().filter(|(_, b)| **b == b'\n').map(|(i, _)| i + 1))
        .collect();
    for (k, key) in keys.iter().enumerate() {
        let line = k + 1;
        let mut stripped = bytes[..starts[line]].to_vec();
        stripped.extend_from_slice(&bytes[starts[line + 1]..]);
        match Capture::read(&stripped) {
            Err(HostError::Refused(m)) => {
                assert_eq!(m, format!("missing required field: {key}"))
            }
            other => panic!("line {line} stripped: expected a refusal, got {other:?}"),
        }
    }
}

#[test]
fn any_text_without_a_newline_round_trips() {
    let summary = "core_rev=f4f442d2 \u{2014} ring at 74.25 MHz, 13.5 \u{b5}s\tper slot".to_string();
    let mut c = capture(Some(3), Some(summary.clone()), &two_events());
    c.dirty = "dirty \u{e9}t\u{e9}".to_string();
    c.deps = "lucid-sld@8d1e0b44,\u{65e5}\u{672c}@LOCAL-PATH".to_string();
    c.schema.records[0].fields[0].name = "addr \u{2192} bus".to_string();
    let back = Capture::read(&c.to_bytes()).expect("UTF-8 text reads back");
    assert_eq!(back.header_summary, Some(summary));
    assert_eq!(back.dirty, c.dirty);
    assert_eq!(back.deps, c.deps);
    assert_eq!(back.schema.records[0].fields[0].name, "addr \u{2192} bus");
    assert!(diff::diff(&c, &back).is_empty());
}

#[test]
fn text_that_is_not_utf8_is_malformed() {
    let bytes = capture(None, Some("ok".to_string()), &two_events()).to_bytes();
    let at = bytes.windows(9).position(|w| w == b"header ok").expect("header line");
    let mut bad = bytes.clone();
    bad[at + 7] = 0xFF;
    let err = Capture::read(&bad).unwrap_err();
    assert_eq!(err.exit_code(), exit::DECODE);
}

#[test]
fn a_diff_the_other_way_round_swaps_its_sides() {
    let a = capture(Some(1), None, &two_events());
    let mut b = capture(None, None, &two_events());
    b.records[0].timestamp = 99;
    let ab = diff::diff(&a, &b);
    let ba = diff::diff(&b, &a);
    let swapped: Vec<(String, String, String)> =
        ab.header.iter().map(|f| (f.field.clone(), f.b.clone(), f.a.clone())).collect();
    let back: Vec<(String, String, String)> =
        ba.header.iter().map(|f| (f.field.clone(), f.a.clone(), f.b.clone())).collect();
    assert_eq!(swapped, back);
    assert_eq!((ba.events_a, ba.events_b), (ab.events_b, ab.events_a));
    assert_eq!(ba.first_event.map(|e| e.index), Some(0));
    assert_eq!(ab.first_event.map(|e| e.index), Some(0));
}

#[test]
fn a_later_registration_never_displaces_an_earlier_one() {
    assert_eq!(registry_index(&[1, 1], 1), Some(0));
    assert_eq!(registry_index(&[7, 1], 1), Some(1));
    assert_eq!(registry_index(&[7, 9], 1), None);
}

#[test]
fn the_banner_warns_exactly_on_a_local_path() {
    let local = provenance("o1host@LOCAL-PATH");
    let banner = local.banner();
    assert!(banner.starts_with(&local.lines()));
    assert_eq!(
        &banner[local.lines().len()..],
        "\n  WARNING: a dependency resolved to a LOCAL-PATH \u{2014} this build is not reproducible"
    );
    let pinned = provenance("o1host@5b7e66d2");
    assert!(!pinned.banner().contains("WARNING"));
}

#[test]
fn a_joined_stack_splits_back_into_its_pairs() {
    let pairs = vec![("lucid-sld", "8d1e0b44"), ("o1host", "a@b"), ("x", "")];
    let deps: Vec<String> = pairs.iter().map(|(n, r)| format!("{n}@{r}")).collect();
    let p = provenance(&deps.join(","));
    let back: Vec<(String, String)> = p.dep_pairs();
    let want: Vec<(String, String)> =
        pairs.iter().map(|(n, r)| (n.to_string(), r.to_string())).collect();
    assert_eq!(back, want);
}

#[test]
fn a_raw_render_has_one_line_per_word_after_its_header() {
    let words = [1u32, 2, 3, 0xFFFF_FFFF, 0];
    assert_eq!(render::raw_region(9, &words).lines().count(), words.len() + 1);
}

#[test]
fn a_mailbox_write_splits_a_run_at_the_same_nibble() {
    let rec = decode(&[
        write(0x0000_0000, 1, 1),
        write(0x0000_0004, 2, 2),
        write(0xF800_0020, 7, 3), // a parameter write between them
        write(0x0000_0008, 3, 4),
    ]);
    let runs: Vec<(u32, u32, u32)> =
        rec.deliveries.iter().map(|d| (d.base, d.writes, d.first_seq)).collect();
    assert_eq!(runs, vec![(0, 2, 1), (0, 1, 4)]);
}

#[test]
fn header_summaries_that_differ_keep_a_diff_open() {
    let a = capture(None, Some("a\\b".to_string()), &two_events());
    let b = capture(None, Some("a\u{5c}\u{5c}b".to_string()), &two_events());
    let d = diff::diff(&a, &b);
    assert!(!d.is_empty());
    assert_eq!(d.header.len(), 1);
    assert_eq!(d.header[0].a, "Some(\"a\\\\b\")");
}
