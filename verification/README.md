# lucid-host

A bench host for LUCID instrument nodes: small logic instruments on an FPGA's
JTAG hub that buffer timestamped events into a ring. The host identifies an
instrument, drains it, renders what it finds, and writes a versioned capture
container; an unknown instrument renders RAW and `UNDECODED`, never a guess.

The library is verified with Verus; each public function states what it
returns in its contract, and the properties that span functions are proved
as lemmas.

## Layout

- `src/capture.rs` and `src/capture/`: the v1 capture container. `write.rs`
  states the bytes the writer writes, `read.rs` and `parse.rs` read them
  back, `gate.rs` holds the refusals (no version line, another version, a
  missing header field), `laws.rs` proves that a container reads back as
  written and that each refusal is made where it should be.
- `src/diff.rs`, `src/diff/laws.rs`: two captures in, their divergences out.
- `src/boot.rs`, `src/boot/laws.rs`: the boot handshake decoded from a
  capture's records.
- `src/decoder.rs`: the O1 observatory's record packing, schema, CTRL writes
  and renders.
- `src/render.rs`: the line formats of the hub walk, IDENT, regions, RAW
  regions and the O1 header.
- `src/error.rs`, `src/provenance.rs` (with `src/provenance/laws.rs`),
  `src/host.rs`: typed errors and exit codes, build provenance, and the
  drain arithmetic.
- `src/text.rs`, `src/wire.rs`: digits and UTF-8 text as bytes, written and
  read.
- `app/`: the command line, the cable and the calls into the instrument
  crates.
- `tests/`: the credentials, and the library's own checks.

Exit codes: 0 ok, 2 refused, 3 transport fault, 4 decode fault, 64 usage.
