//! Credentials: each boundary, decode, render and container property,
//! watched on concrete values, its negative half written, not implied.

use lucid_host::capture::{Capture, RunMode};
use lucid_host::decoder::{
    no_ctrl_surface, o1_event_schema, o1_records, registry_index, Ctrl, CtrlBit, O1Decoder,
    O1Event, Policy,
};
use lucid_host::diff;
use lucid_host::error::{exit, HostError, SldError};
use lucid_host::provenance::Provenance;
use lucid_host::render;
use lucid_host::render::O1Header;

/// An O1 ring event holding the given fields.
fn event(ts: u32, addr: u32, data: u32, kind: u8, flags: u8, seq: u32) -> O1Event {
    O1Event { timestamp: ts, addr, data, kind, flags, seq, empty: false }
}

/// A small non-empty RING: two events.
fn sample_ring() -> Vec<O1Event> {
    vec![
        event(100, 0xF800_0000, 0x0000_0082, 1, 0, 1),
        event(204, 0x1000_0000, 0x0000_0010, 1, 0, 2),
    ]
}

/// The pre-arm HEAD block captured from silicon, as the instrument's header
/// decoder gives it: core revision `f4f442d2`, a 4096-slot ring of 4-word
/// events, STOP policy, disarmed, no events.
fn golden_head() -> O1Header {
    O1Header {
        core_rev: "f4f442d2".to_string(),
        ring_depth: 4096,
        words_per_event: 4,
        ring_policy: "STOP".to_string(),
        armed: false,
        overflowed: false,
        event_count: 0,
        dropped_count: 0,
        rollover_count: 0,
        filter: "mask=0xFFFF lo=0x00000000 hi=0xFFFFFFFF".to_string(),
    }
}

fn sample_provenance() -> Provenance {
    Provenance {
        tool_rev: "3f9c2a17".to_string(),
        dirty: "clean".to_string(),
        deps: "lucid-sld@8d1e0b44,blaster2@c2a9f310,o1host@5b7e66d2,lucid-trace@91f0ac3e"
            .to_string(),
    }
}

fn sample_capture() -> Capture {
    let schema = o1_event_schema(0);
    let records = o1_records(&sample_ring(), 2);
    let header = O1Decoder.header_summary(Ok(golden_head()));
    Capture::new(
        &sample_provenance(),
        RunMode::Sim,
        0x0001,
        1,
        1,
        74_250_000,
        None,
        header,
        schema,
        records,
    )
}

// ---- only THIS capture's valid events, never stale ring words ----

#[test]
fn the_container_records_only_valid_events_never_stale_ring_words() {
    // A ring where a CLEAR reset the counters to N=2 and 2 NEW events were
    // written at positions 0..2, overwriting the first 2 of a previous
    // capture; the previous capture's events at positions 2..5 linger.
    let polluted = vec![
        event(500, 0x0000_0000, 0x0000_0082, 1, 0, 10), // new #1
        event(604, 0x1000_0000, 0x0000_0010, 1, 0, 11), // new #2
        event(100, 0xF800_0000, 0x0000_00AA, 1, 0, 1),  // stale
        event(204, 0xF800_0004, 0x0000_00BB, 1, 0, 2),  // stale
        event(308, 0xF800_0008, 0x0000_00CC, 1, 0, 3),  // stale
    ];
    let valid = 2; // the header says: 2 events this capture

    // every slot holds a plausible event: the pollution
    let over = polluted.iter().filter(|e| !e.empty).count();
    assert_eq!(over, 5, "the whole region holds the stale events too");

    let records = o1_records(&polluted, valid);
    assert_eq!(records.len(), 2, "record count EQUALS the header event_count");
    // seq is packed at payload bits [76..96]
    let seqs: Vec<u32> = records.iter().map(|r| (r.payload >> 76) as u32 & 0xF_FFFF).collect();
    assert_eq!(seqs, vec![10, 11], "the records are exactly THIS capture's new events");
}

#[test]
fn a_fresh_ring_capture_is_unaffected_by_the_fix() {
    let records = o1_records(&sample_ring(), 2);
    assert_eq!(records.len(), 2, "a fresh-ring count is unchanged by the fix");
}

// ---- refuse-before-use maps to typed errors that NAME the mismatch ----

#[test]
fn hub_less_device_is_refused_naming_the_0x7ff_signature() {
    let err = HostError::from_sld(SldError::Manufacturer { expected: 0x06E, got: 0x7FF });
    assert_eq!(err.exit_code(), exit::REFUSED);
    assert!(err.message().contains("0x7FF"));
    assert!(err.message().contains("not Altera"));
}

#[test]
fn a_shift_width_overflow_is_a_transport_fault() {
    let err = HostError::from_sld(SldError::Width { bits: 80, max: 64 });
    assert_eq!(err.exit_code(), exit::TRANSPORT);
}

#[test]
fn exit_codes_are_distinct_per_class() {
    let codes = [exit::OK, exit::REFUSED, exit::TRANSPORT, exit::DECODE, exit::USAGE];
    let mut seen = codes.to_vec();
    seen.sort_unstable();
    seen.dedup();
    assert_eq!(seen.len(), codes.len());
}

// ---- decoder: unknown -> RAW+UNDECODED byte-faithful; known -> decodes ----

#[test]
fn an_unregistered_instrument_renders_raw_and_the_bytes_round_trip() {
    let registered: Vec<u16> = Vec::new();
    assert!(registry_index(&registered, 0x0001).is_none());
    let words: Vec<u32> = vec![0xDEAD_BEEF, 0x0000_0000, 0x1234_5678, 0xFFFF_FFFF];
    let rendered = render::raw_region(0, &words);
    assert!(rendered.contains("UNDECODED"));
    let round: Vec<u32> = rendered
        .lines()
        .filter(|l| l.trim_start().starts_with('['))
        .filter_map(|l| l.rsplit("0x").next())
        .filter_map(|h| u32::from_str_radix(h.trim(), 16).ok())
        .collect();
    assert_eq!(round, words);
}

#[test]
fn the_registered_o1_decoder_decodes_a_valid_head() {
    let registered = vec![O1Decoder.instrument_id()];
    let dec = registry_index(&registered, 0x0001).map(|_| O1Decoder.name());
    assert_eq!(dec, Some("O1 observatory"));
    let rendered = O1Decoder.render_header(Ok(golden_head())).expect("valid HEAD decodes");
    assert!(rendered.contains("core_rev=f4f442d2"));
    assert!(rendered.contains("ring=4096x4w"));
}

#[test]
fn a_corrupt_head_is_a_decode_fault_not_a_guess() {
    let bad: Result<O1Header, String> = Err("HEAD magic missing".to_string());
    assert_eq!(O1Decoder.render_header(bad).unwrap_err().exit_code(), exit::DECODE);
}

#[test]
fn the_o1_header_render_is_byte_stable() {
    let want = "core_rev=f4f442d2 ring=4096x4w policy=STOP armed=0 overflowed=0 \
                events=0 dropped=0 rollovers=0\n  filter: ";
    assert!(render::o1_header(&golden_head()).starts_with(want));
}

// ---- CTRL: levels, not pulses (the host emits an edge per write) ----

#[test]
fn ctrl_arm_twice_produces_two_edges_both_setting_the_level() {
    let (w0, n0) = O1Decoder.ctrl_words(&Ctrl::Arm, false);
    let (w1, _n1) = O1Decoder.ctrl_words(&Ctrl::Arm, n0);
    assert_eq!(w0.len(), 1);
    assert_eq!(w1.len(), 1);
    assert!(
        w0[0].bits.contains(&CtrlBit::Arm) && w1[0].bits.contains(&CtrlBit::Arm),
        "both set the ARM level"
    );
    assert_ne!(w0[0].nonce, w1[0].nonce, "consecutive writes toggle the nonce edge");
}

#[test]
fn filter_is_three_writes_and_policy_encodes_stop_vs_wrap() {
    let (words, _) = O1Decoder
        .ctrl_words(&Ctrl::Filter { kind_mask: 0x000A, addr_lo: 0, addr_hi: u32::MAX }, false);
    assert_eq!(words.len(), 3, "mask + lo + hi are three CTRL writes");
    let (stop, _) = O1Decoder.ctrl_words(&Ctrl::Policy(Policy::Stop), false);
    let (wrap, _) = O1Decoder.ctrl_words(&Ctrl::Policy(Policy::Wrap), false);
    assert!(!stop[0].bits.contains(&CtrlBit::PolicyVal), "STOP clears POLICY_VAL");
    assert!(wrap[0].bits.contains(&CtrlBit::PolicyVal), "WRAP sets POLICY_VAL");
}

#[test]
fn an_instrument_with_no_decoder_refuses_ctrl() {
    // an instrument with no CTRL surface refuses every CTRL action
    assert_eq!(no_ctrl_surface().exit_code(), exit::REFUSED);
}

// ---- the native container: round-trip, and the refusals both directions ----

#[test]
fn the_container_round_trips_through_native_lucid_trace() {
    let cap = sample_capture();
    let bytes = cap.to_bytes();
    assert!(bytes.starts_with(b"LUCID-CAPTURE v1\n"), "version gate first");

    let back = Capture::read(&bytes).expect("a well-formed capture reads");
    assert_eq!(back.run_mode, RunMode::Sim);
    assert_eq!(back.instrument_id, 0x0001);
    assert_eq!(back.core_clock_hz, 74_250_000);
    assert_eq!(back.records.len(), cap.records.len());
    for (a, b) in cap.records.iter().zip(back.records.iter()) {
        assert_eq!(
            (a.tag, a.timestamp, a.payload, a.payload_bits),
            (b.tag, b.timestamp, b.payload, b.payload_bits),
            "native payload survives"
        );
    }
}

#[test]
fn a_headerless_file_is_refused_at_read() {
    let err = Capture::read(b"just some bytes, no capture header\n").unwrap_err();
    assert_eq!(err.exit_code(), exit::REFUSED);
    assert!(err.message().contains("version gate"));
}

#[test]
fn a_stripped_required_field_is_refused_naming_it() {
    let bytes = sample_capture().to_bytes();
    // remove the run_mode line (it sits in the text header, before the payload)
    let needle = b"run_mode SIM\n";
    let at = bytes
        .windows(needle.len())
        .position(|w| w == needle)
        .expect("run_mode line present");
    let mut stripped = bytes.clone();
    stripped.drain(at..at + needle.len());
    let err = Capture::read(&stripped).unwrap_err();
    assert_eq!(err.exit_code(), exit::REFUSED);
    assert!(
        err.message().contains("run_mode"),
        "refusal names the missing field: {}",
        err.message()
    );
}

#[test]
fn a_v2_stamped_file_is_refused_loudly_by_the_v1_reader() {
    let mut bytes = sample_capture().to_bytes();
    let (v1, v2) = (b"LUCID-CAPTURE v1\n".as_slice(), b"LUCID-CAPTURE v2\n".as_slice());
    bytes.splice(0..v1.len(), v2.iter().copied());
    let err = Capture::read(&bytes).unwrap_err();
    assert_eq!(err.exit_code(), exit::REFUSED);
    assert!(
        err.message().contains("version 2"),
        "names the unsupported version: {}",
        err.message()
    );
}

// ---- diff, both directions, first divergence located ----

#[test]
fn diff_of_the_same_capture_is_empty() {
    let bytes = sample_capture().to_bytes();
    let d = diff::diff_bytes(&bytes, &bytes).expect("both read");
    assert!(d.is_empty(), "identical captures diff empty");
    assert!(diff::render(&d).contains("IDENTICAL"));
}

#[test]
fn a_perturbed_copy_diffs_nonempty_with_the_divergence_located() {
    let a = sample_capture();
    // perturb the SECOND event's data
    let mut b = a.clone();
    b.records[1].payload ^= 0xFF;
    let d = diff::diff(&a, &b);
    assert!(!d.is_empty());
    let ev = d.first_event.expect("a located event divergence");
    assert_eq!(ev.index, 1, "the divergence is located at the injected position");
}

#[test]
fn diff_inherits_the_read_refusals() {
    let good = sample_capture().to_bytes();
    let err = diff::diff_bytes(b"not a capture\n", &good).unwrap_err();
    assert_eq!(err.exit_code(), exit::REFUSED);
}
