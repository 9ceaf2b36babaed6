//! What the O1 renders and records say, read back: a STATUS line reads
//! back as the status it was made from, each flag under its own name; each
//! line of a RING render names its own event's kind and reads back as that
//! event's fields; a record's payload unpacks into its event's fields.
use vstd::prelude::*;
use crate::decoder::{
    O1Event, O1Status, o1_record, o1_records_spec, one_line, ring_event_line, ring_event_lines,
    status_text,
};
use crate::render::flag_text;
use crate::text::{ascii_chars, dec_digits, pad_left, pad_right};
use crate::wire::{
    dec_at, hex_run_at, is_dec_byte, is_prefix_at, lit, lit_at, pow16, text_bytes, lemma_dec_at,
    lemma_hex_len, lemma_hex_run_at, lemma_lit_then, lemma_text_bytes_ascii,
    lemma_text_bytes_concat,
};
use crate::text::{hex_digits, lemma_dec_digits_all};

verus! {

/// Reads a flag digit, `1` or `0`, at `p`.
pub open spec fn flag_at(b: Seq<u8>, p: int) -> Option<(bool, int)> {
    match lit_at(b, p, lit("1")) {
        Some(q) => Some((true, q)),
        None => match lit_at(b, p, lit("0")) {
            Some(q) => Some((false, q)),
            None => None,
        },
    }
}

/// Reads `key` and then a flag digit at `p`.
pub open spec fn keyed_flag_at(b: Seq<u8>, p: int, key: Seq<u8>) -> Option<(bool, int)> {
    match lit_at(b, p, key) {
        Some(q) => flag_at(b, q),
        None => None,
    }
}

/// Reads a STATUS line: `armed=`, `overflowed=`, `wrapped_ever=` and
/// `ring_full=`, each with its flag digit, `policy=` with `WRAP` or `STOP`,
/// and `heartbeat=` with a decimal number that ends the line.
pub open spec fn status_reading(t: Seq<char>) -> Option<O1Status> {
    let b = text_bytes(t);
    match keyed_flag_at(b, 0, lit("armed=")) {
        None => None,
        Some((armed, p1)) => match keyed_flag_at(b, p1, lit(" overflowed=")) {
            None => None,
            Some((overflowed, p2)) => match keyed_flag_at(b, p2, lit(" wrapped_ever=")) {
                None => None,
                Some((wrapped_ever, p3)) => match keyed_flag_at(b, p3, lit(" ring_full=")) {
                    None => None,
                    Some((ring_full, p4)) => match lit_at(b, p4, lit(" policy=")) {
                        None => None,
                        Some(p5) => {
                            let pw = if lit_at(b, p5, lit("WRAP")) is Some {
                                Some((true, p5 + 4))
                            } else if lit_at(b, p5, lit("STOP")) is Some {
                                Some((false, p5 + 4))
                            } else {
                                None
                            };
                            match pw {
                                None => None,
                                Some((policy_wrap, p6)) => match lit_at(
                                    b,
                                    p6,
                                    lit(" heartbeat="),
                                ) {
                                    None => None,
                                    Some(p7) => match dec_at(b, p7, 0xFFFF_FFFF) {
                                        Some((h, e)) => if e == b.len() {
                                            Some(
                                                O1Status {
                                                    armed,
                                                    overflowed,
                                                    wrapped_ever,
                                                    ring_full,
                                                    policy_wrap,
                                                    heartbeat: h as u32,
                                                },
                                            )
                                        } else {
                                            None
                                        },
                                        None => None,
                                    },
                                },
                            }
                        },
                    },
                },
            },
        },
    }
}

pub proof fn lemma_flag_then(b: Seq<u8>, p: int, key: Seq<u8>, x: bool)
    requires
        is_prefix_at(b, p, key),
        is_prefix_at(b, p + key.len(), text_bytes(flag_text(x))),
    ensures
        keyed_flag_at(b, p, key) == Some((x, p + key.len() + 1)),
{
    reveal_strlit("1");
    reveal_strlit("0");
    let q = p + key.len();
    assert(text_bytes(flag_text(x)) =~= if x { lit("1") } else { lit("0") });
    if !x {
        crate::wire::lemma_prefix_byte(b, q, lit("0"), 0);
        assert(lit_at(b, q, lit("1")) is None) by {
            if is_prefix_at(b, q, lit("1")) {
                crate::wire::lemma_prefix_byte(b, q, lit("1"), 0);
            }
        }
    }
}

/// Where `c + p` stands at 0 in `b`, `c` stands at 0 and `p` right after it.
proof fn lemma_peel(b: Seq<u8>, c: Seq<char>, p: Seq<char>)
    requires
        is_prefix_at(b, 0, text_bytes(c + p)),
    ensures
        is_prefix_at(b, 0, text_bytes(c)),
        is_prefix_at(b, text_bytes(c).len() as int, text_bytes(p)),
        text_bytes(c).len() == c.len(),
{
    lemma_text_bytes_concat(c, p);
    crate::wire::lemma_prefix_split(b, 0, text_bytes(c), text_bytes(p));
}

/// A STATUS line reads back as the status it was made from: each flag's
/// digit stands under that flag's own name, the policy under `policy=`,
/// the heartbeat last.
#[verifier::spinoff_prover]
#[verifier::rlimit(50)]
pub proof fn lemma_status_reads_back(s: O1Status)
    ensures
        status_reading(status_text(Some(s))) == Some(s),
{
    reveal_strlit("armed=");
    reveal_strlit(" overflowed=");
    reveal_strlit(" wrapped_ever=");
    reveal_strlit(" ring_full=");
    reveal_strlit(" policy=");
    reveal_strlit("WRAP");
    reveal_strlit("STOP");
    reveal_strlit(" heartbeat=");
    reveal_strlit("1");
    reveal_strlit("0");
    let t = status_text(Some(s));
    let b = text_bytes(t);
    let pol = if s.policy_wrap { "WRAP"@ } else { "STOP"@ };
    let d = dec_digits(s.heartbeat as nat);
    let c1 = "armed="@;
    let c2 = c1 + flag_text(s.armed);
    let c3 = c2 + " overflowed="@;
    let c4 = c3 + flag_text(s.overflowed);
    let c5 = c4 + " wrapped_ever="@;
    let c6 = c5 + flag_text(s.wrapped_ever);
    let c7 = c6 + " ring_full="@;
    let c8 = c7 + flag_text(s.ring_full);
    let c9 = c8 + " policy="@;
    let c10 = c9 + pol;
    let c11 = c10 + " heartbeat="@;
    assert(t == c11 + ascii_chars(d));
    assert(b.subrange(0, b.len() as int) =~= b);
    lemma_peel(b, c11, ascii_chars(d));
    lemma_peel(b, c10, " heartbeat="@);
    lemma_peel(b, c9, pol);
    lemma_peel(b, c8, " policy="@);
    lemma_peel(b, c7, flag_text(s.ring_full));
    lemma_peel(b, c6, " ring_full="@);
    lemma_peel(b, c5, flag_text(s.wrapped_ever));
    lemma_peel(b, c4, " wrapped_ever="@);
    lemma_peel(b, c3, flag_text(s.overflowed));
    lemma_peel(b, c2, " overflowed="@);
    lemma_peel(b, c1, flag_text(s.armed));
    assert(flag_text(s.armed).len() == 1);
    assert(flag_text(s.overflowed).len() == 1);
    assert(flag_text(s.wrapped_ever).len() == 1);
    assert(flag_text(s.ring_full).len() == 1);
    assert(pol.len() == 4);
    assert(text_bytes("armed="@) == lit("armed="));
    assert(text_bytes(" overflowed="@) == lit(" overflowed="));
    assert(text_bytes(" wrapped_ever="@) == lit(" wrapped_ever="));
    assert(text_bytes(" ring_full="@) == lit(" ring_full="));
    assert(text_bytes(" policy="@) == lit(" policy="));
    assert(text_bytes(" heartbeat="@) == lit(" heartbeat="));
    lemma_flag_then(b, 0, lit("armed="), s.armed);
    lemma_flag_then(b, 7, lit(" overflowed="), s.overflowed);
    lemma_flag_then(b, 20, lit(" wrapped_ever="), s.wrapped_ever);
    lemma_flag_then(b, 35, lit(" ring_full="), s.ring_full);
    assert(lit_at(b, 47, lit(" policy=")) == Some(55int));
    if s.policy_wrap {
        assert(text_bytes(pol) =~= lit("WRAP"));
    } else {
        assert(text_bytes(pol) =~= lit("STOP"));
        assert(lit_at(b, 55, lit("WRAP")) is None) by {
            if is_prefix_at(b, 55, lit("WRAP")) {
                crate::wire::lemma_prefix_byte(b, 55, lit("WRAP"), 0);
                crate::wire::lemma_prefix_byte(b, 55, lit("STOP"), 0);
            }
        }
    }
    assert(lit_at(b, 59, lit(" heartbeat=")) == Some(70int));
    lemma_text_bytes_ascii(d);
    assert(70 + d.len() == b.len());
    lemma_dec_at(b, 70, s.heartbeat as nat, 0xFFFF_FFFF);
}

/// Ten to the `k`.
pub open spec fn pow10(k: nat) -> nat
    decreases k,
{
    if k == 0 {
        1
    } else {
        10 * pow10((k - 1) as nat)
    }
}

proof fn lemma_dec_len(n: nat, k: nat)
    requires
        1 <= k,
        n < pow10(k),
    ensures
        dec_digits(n).len() <= k,
    decreases k,
{
    if n >= 10 {
        if k == 1 {
            assert(pow10(1) == 10) by {
                reveal_with_fuel(pow10, 2);
            }
        }
        assert(n / 10 < pow10((k - 1) as nat));
        lemma_dec_len(n / 10, (k - 1) as nat);
        assert(dec_digits(n) == dec_digits(n / 10).push(crate::text::digit(n % 10)));
    }
}

/// An event line names the event's kind right after its timestamp column:
/// the line opens with a newline and `  t=`, the timestamp takes ten
/// columns, a space follows, and then comes the kind name.
pub proof fn lemma_event_line_names_kind(e: O1Event, name: Seq<char>)
    ensures
        ring_event_line(e, name).subrange(0, 5) == "\n  t="@,
        ring_event_line(e, name).subrange(16, (16 + name.len()) as int) == name,
{
    reveal_strlit("\n  t=");
    reveal_strlit(" ");
    assert(pow10(10) == 10_000_000_000) by {
        reveal_with_fuel(pow10, 11);
    }
    lemma_dec_len(e.timestamp as nat, 10);
    let pad = ascii_chars(pad_left(dec_digits(e.timestamp as nat), 10));
    assert(pad.len() == 10);
    let l = ring_event_line(e, name);
    let head = "\n  t="@ + pad + " "@;
    assert(head.len() == 16);
    let pr = pad_right(name, 12);
    assert(pr.subrange(0, name.len() as int) =~= name);
    assert(l.subrange(0, 5) =~= "\n  t="@);
    assert(l.subrange(16, (16 + name.len()) as int) =~= name) by {
        assert forall|k: int| 0 <= k < name.len() implies #[trigger] l.subrange(
            16,
            (16 + name.len()) as int,
        )[k] == name[k] by {
            assert(l[16 + k] == pr[k]);
        }
    }
}

/// Where the run of spaces that starts at `pos` ends.
pub open spec fn space_end(b: Seq<u8>, pos: int) -> int
    decreases b.len() - pos,
{
    if 0 <= pos < b.len() && b[pos] == 32 {
        space_end(b, pos + 1)
    } else {
        pos
    }
}

/// Reads the fields of an event line whose kind-name column is `w` wide:
/// `\n  t=` and the timestamp right-aligned in ten columns, a space, the
/// name column, then ` addr=0x` and ` data=0x` each with a hexadecimal
/// number, and ` seq=` with a decimal number that ends the line. Gives the
/// timestamp, the address, the data and the sequence number.
pub open spec fn event_fields_reading(t: Seq<char>, w: int) -> Option<(nat, nat, nat, nat)> {
    let b = text_bytes(t);
    match lit_at(b, 0, lit("\n  t=")) {
        None => None,
        Some(p1) => match dec_at(b, space_end(b, p1), 0xFFFF_FFFF) {
            None => None,
            Some((ts, p2)) => if p2 != 15 || lit_at(b, 15, lit(" ")) is None {
                None
            } else {
                match lit_at(b, 16 + w, lit(" addr=0x")) {
                    None => None,
                    Some(p3) => match hex_run_at(b, p3) {
                        None => None,
                        Some((addr, p4)) => match lit_at(b, p4, lit(" data=0x")) {
                            None => None,
                            Some(p5) => match hex_run_at(b, p5) {
                                None => None,
                                Some((data, p6)) => match lit_at(b, p6, lit(" seq=")) {
                                    None => None,
                                    Some(p7) => match dec_at(b, p7, 0xFFFF_FFFF) {
                                        Some((seq, e)) => if e == b.len() {
                                            Some((ts, addr, data, seq))
                                        } else {
                                            None
                                        },
                                        None => None,
                                    },
                                },
                            },
                        },
                    },
                }
            },
        },
    }
}

/// A run of `len` spaces at `pos`, then something else (or the end), ends
/// at `pos + len`.
pub proof fn lemma_space_end(b: Seq<u8>, pos: int, len: int)
    requires
        0 <= pos,
        0 <= len,
        pos + len <= b.len(),
        forall|i: int| pos <= i < pos + len ==> #[trigger] b[i] == 32,
        pos + len == b.len() || b[pos + len] != 32,
    ensures
        space_end(b, pos) == pos + len,
    decreases len,
{
    if len > 0 {
        lemma_space_end(b, pos + 1, len - 1);
    }
}

/// An event line reads back as the event it was made from: the timestamp
/// in its column, then the address, the data and the sequence number,
/// each under its own name.
#[verifier::spinoff_prover]
#[verifier::rlimit(80)]
pub proof fn lemma_event_line_reads_back(e: O1Event, name: Seq<char>)
    ensures
        event_fields_reading(
            ring_event_line(e, name),
            if name.len() < 12 { 12 } else { name.len() as int },
        ) == Some((e.timestamp as nat, e.addr as nat, e.data as nat, e.seq as nat)),
{
    reveal_strlit("\n  t=");
    reveal_strlit(" ");
    reveal_strlit(" addr=0x");
    reveal_strlit(" data=0x");
    reveal_strlit(" seq=");
    assert(pow10(10) == 10_000_000_000) by {
        reveal_with_fuel(pow10, 11);
    }
    lemma_dec_len(e.timestamp as nat, 10);
    assert(pow16(8) == 0x1_0000_0000) by {
        reveal_with_fuel(pow16, 9);
    }
    lemma_hex_len(e.addr as nat, 8);
    lemma_hex_len(e.data as nat, 8);
    let w: int = if name.len() < 12 { 12 } else { name.len() as int };
    let d = dec_digits(e.timestamp as nat);
    let pad = pad_left(d, 10);
    let pr = pad_right(name, 12);
    let ha = hex_digits(e.addr as nat, 8);
    let hd = hex_digits(e.data as nat, 8);
    let ds = dec_digits(e.seq as nat);
    assert(pad.len() == 10);
    assert(pr.len() == w);
    let l = ring_event_line(e, name);
    let b = text_bytes(l);
    let bb = lit("\n  t=") + pad + lit(" ") + text_bytes(pr) + lit(" addr=0x") + ha + lit(
        " data=0x",
    ) + hd + lit(" seq=") + ds;
    assert(b =~= bb);
    assert(b.len() == 53 + w + ds.len());
    // The literal that opens the line.
    assert(b.subrange(0, 5) =~= lit("\n  t="));
    // The timestamp column: spaces, then the digits.
    let sp = 10 - d.len();
    assert forall|i: int| 5 <= i < 5 + sp implies #[trigger] b[i] == 32 by {
        assert(b[i] == pad[i - 5]);
    }
    lemma_dec_digits_all(e.timestamp as nat);
    assert(b[5 + sp] == d[0]);
    lemma_space_end(b, 5, sp);
    assert(b.subrange(5 + sp, 15) =~= d);
    assert(b[15] == 32);
    lemma_dec_at(b, 5 + sp, e.timestamp as nat, 0xFFFF_FFFF);
    assert(b.subrange(15, 16) =~= lit(" "));
    // The address and the data.
    assert(b.subrange(16 + w, 24 + w) =~= lit(" addr=0x"));
    assert(b.subrange(24 + w, 32 + w) =~= ha);
    assert(b[32 + w] == 32);
    lemma_hex_run_at(b, 24 + w, e.addr as nat, 8);
    assert(b.subrange(32 + w, 40 + w) =~= lit(" data=0x"));
    assert(b.subrange(40 + w, 48 + w) =~= hd);
    assert(b[48 + w] == 32);
    lemma_hex_run_at(b, 40 + w, e.data as nat, 8);
    // The sequence number ends the line.
    assert(b.subrange(48 + w, 53 + w) =~= lit(" seq="));
    assert(b.subrange(53 + w, b.len() as int) =~= ds);
    lemma_dec_at(b, 53 + w, e.seq as nat, 0xFFFF_FFFF);
}

/// Rendering one more event adds that event's line, named with that same
/// event's kind name, or nothing where its slot is empty.
pub proof fn lemma_ring_grows_by_event(events: Seq<O1Event>, names: Seq<Seq<char>>, i: int)
    requires
        names.len() == events.len(),
        0 <= i < events.len(),
    ensures
        ring_event_lines(events.take(i + 1), names.take(i + 1)) == ring_event_lines(
            events.take(i),
            names.take(i),
        ) + if events[i].empty {
            Seq::<char>::empty()
        } else {
            ring_event_line(events[i], names[i])
        },
{
    let ev = events.take(i + 1);
    let nm = names.take(i + 1);
    assert(ev.drop_last() =~= events.take(i));
    assert(nm.take(i) =~= names.take(i));
    assert(ev.last() == events[i]);
    assert(nm[i] == names[i]);
    if events[i].empty {
        assert(ring_event_lines(events.take(i), names.take(i)) + Seq::<char>::empty()
            =~= ring_event_lines(events.take(i), names.take(i)));
    }
}

/// The lines of the first `i` events open the lines of them all.
pub proof fn lemma_ring_prefix(events: Seq<O1Event>, names: Seq<Seq<char>>, i: int)
    requires
        names.len() == events.len(),
        0 <= i <= events.len(),
    ensures
        ring_event_lines(events.take(i), names.take(i)).len() <= ring_event_lines(
            events,
            names,
        ).len(),
        ring_event_lines(events, names).subrange(
            0,
            ring_event_lines(events.take(i), names.take(i)).len() as int,
        ) == ring_event_lines(events.take(i), names.take(i)),
    decreases events.len() - i,
{
    assert(events.take(events.len() as int) =~= events);
    assert(names.take(names.len() as int) =~= names);
    if i < events.len() {
        lemma_ring_prefix(events, names, i + 1);
        lemma_ring_grows_by_event(events, names, i);
        let a = ring_event_lines(events.take(i), names.take(i));
        let a1 = ring_event_lines(events.take(i + 1), names.take(i + 1));
        let all = ring_event_lines(events, names);
        assert(all.subrange(0, a.len() as int) =~= a1.subrange(0, a.len() as int));
        assert(a1.subrange(0, a.len() as int) =~= a);
    } else {
        let all = ring_event_lines(events, names);
        assert(all.subrange(0, all.len() as int) =~= all);
    }
}

proof fn lemma_sub_of_prefix(all: Seq<char>, upto: Seq<char>, off: int, len: int)
    requires
        upto.len() <= all.len(),
        all.subrange(0, upto.len() as int) == upto,
        0 <= off,
        0 <= len,
        off + len <= upto.len(),
    ensures
        all.subrange(off, off + len) == upto.subrange(off, off + len),
{
    assert forall|k: int| 0 <= k < len implies #[trigger] all.subrange(off, off + len)[k]
        == upto.subrange(off, off + len)[k] by {
        assert(all[off + k] == all.subrange(0, upto.len() as int)[off + k]);
    }
    assert(all.subrange(off, off + len) =~= upto.subrange(off, off + len));
}

proof fn lemma_sub_of_tail(before: Seq<char>, line: Seq<char>, off: int, len: int)
    requires
        0 <= off,
        0 <= len,
        off + len <= line.len(),
    ensures
        (before + line).subrange(before.len() + off, before.len() + off + len) == line.subrange(
            off,
            off + len,
        ),
{
    assert((before + line).subrange(before.len() + off, before.len() + off + len) =~= line.subrange(
        off,
        off + len,
    ));
}

/// In a RING render, each event that is not empty has its line, in event
/// order, and that line carries the kind name given for that same event.
#[verifier::spinoff_prover]
pub proof fn lemma_ring_names_each_event(events: Seq<O1Event>, names: Seq<Seq<char>>, i: int)
    requires
        names.len() == events.len(),
        0 <= i < events.len(),
        !events[i].empty,
    ensures
        ({
            let lines = ring_event_lines(events, names);
            let at = ring_event_lines(events.take(i), names.take(i)).len() as int;
            &&& at + 16 + names[i].len() <= lines.len()
            &&& lines.subrange(at, at + 5) == "\n  t="@
            &&& lines.subrange(at + 16, at + 16 + names[i].len()) == names[i]
        }),
{
    let lines = ring_event_lines(events, names);
    let before = ring_event_lines(events.take(i), names.take(i));
    let at = before.len() as int;
    let line = ring_event_line(events[i], names[i]);
    let n = names[i].len() as int;
    lemma_ring_grows_by_event(events, names, i);
    lemma_ring_prefix(events, names, i + 1);
    lemma_event_line_names_kind(events[i], names[i]);
    let upto = ring_event_lines(events.take(i + 1), names.take(i + 1));
    assert(upto == before + line);
    assert(line.subrange(16, 16 + n).len() == n);
    assert(line.len() >= 16 + n);
    lemma_sub_of_tail(before, line, 0, 5);
    lemma_sub_of_tail(before, line, 16, n);
    lemma_sub_of_prefix(lines, upto, at, 5);
    lemma_sub_of_prefix(lines, upto, at + 16, n);
}

/// The native record of an event carries the event's timestamp, and its
/// payload unpacks into the event's fields: `addr` in the low 32 bits,
/// `data` in the next 32, then the low 4 bits of `kind`, `flags`, and the
/// low 20 bits of `seq`, with nothing above bit 96.
pub proof fn lemma_o1_record_unpacks(e: O1Event)
    ensures
        o1_record(e).timestamp == e.timestamp,
        o1_record(e).payload >> 96u128 == 0,
        o1_record(e).payload & 0xFFFF_FFFFu128 == e.addr as u128,
        (o1_record(e).payload >> 32u128) & 0xFFFF_FFFFu128 == e.data as u128,
        (o1_record(e).payload >> 64u128) & 0xFu128 == (e.kind as u128) & 0xFu128,
        (o1_record(e).payload >> 68u128) & 0xFFu128 == e.flags as u128,
        (o1_record(e).payload >> 76u128) & 0xF_FFFFu128 == (e.seq as u128) & 0xF_FFFFu128,
{
    let a = e.addr as u128;
    let d = e.data as u128;
    let k = e.kind as u128;
    let f = e.flags as u128;
    let s = e.seq as u128;
    assert(a <= 0xFFFF_FFFF && d <= 0xFFFF_FFFF && f <= 0xFF ==> {
        let q = a | (d << 32u128) | ((k & 0xFu128) << 64u128) | (f << 68u128) | ((s & 0xF_FFFFu128)
            << 76u128);
        &&& q >> 96u128 == 0
        &&& q & 0xFFFF_FFFFu128 == a
        &&& (q >> 32u128) & 0xFFFF_FFFFu128 == d
        &&& (q >> 64u128) & 0xFu128 == k & 0xFu128
        &&& (q >> 68u128) & 0xFFu128 == f
        &&& (q >> 76u128) & 0xF_FFFFu128 == s & 0xF_FFFFu128
    }) by (bit_vector);
}

/// The records of a ring keep one record per event that is not empty, in
/// the events' order: the records of one more event are those before it,
/// then that event's own record where its slot is not empty.
pub proof fn lemma_records_grow_by_event(events: Seq<O1Event>, i: int)
    requires
        0 <= i < events.len(),
    ensures
        o1_records_spec(events.take(i + 1)) == o1_records_spec(events.take(i)) + if events[i].empty {
            Seq::<crate::capture::RawRecord>::empty()
        } else {
            seq![o1_record(events[i])]
        },
{
    let ev = events.take(i + 1);
    assert(ev.drop_last() =~= events.take(i));
    assert(ev.last() == events[i]);
    if events[i].empty {
        assert(o1_records_spec(events.take(i)) + Seq::<crate::capture::RawRecord>::empty()
            =~= o1_records_spec(events.take(i)));
    } else {
        assert(o1_records_spec(events.take(i)).push(o1_record(events[i])) =~= o1_records_spec(
            events.take(i),
        ) + seq![o1_record(events[i])]);
    }
}

/// Turning text into one line keeps its length and every character but
/// the newlines, each of which becomes a space; no newline is left.
pub proof fn lemma_one_line(t: Seq<char>)
    ensures
        one_line(t).len() == t.len(),
        forall|i: int| 0 <= i < t.len() ==> #[trigger] one_line(t)[i] != '\n',
        forall|i: int| 0 <= i < t.len() && t[i] != '\n' ==> #[trigger] one_line(t)[i] == t[i],
        forall|i: int| 0 <= i < t.len() && t[i] == '\n' ==> #[trigger] one_line(t)[i] == ' ',
{
}

} // verus!
