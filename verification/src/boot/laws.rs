//! What the boot decoder keeps of every record stream: each payload write
//! lands in exactly one delivery run, a run opens wherever a payload write
//! does not follow one at the same address nibble and carries that write's
//! nibble and sequence number, each `'CM'`-tagged command word gives exactly
//! one command with the parameter words last written before it, and each
//! descriptor pairs an id write with the size write after it.
use vstd::prelude::*;
use crate::boot::{
    BusWrite, DESC_BASE, Delivery, Descriptor, NIBBLE_MASK, PARAM_BASE, closed_runs, commands_of,
    continues_run, deliveries_of, descriptors_of, is_command, is_desc_addr, is_param_addr,
    is_payload_addr, open_run, params_after, pending_descriptor,
};

verus! {

/// The number of payload writes among `ws`.
pub open spec fn payload_count(ws: Seq<BusWrite>) -> nat
    decreases ws.len(),
{
    if ws.len() == 0 {
        0
    } else {
        payload_count(ws.drop_last()) + if is_payload_addr(ws.last().addr) {
            1nat
        } else {
            0nat
        }
    }
}

/// The number of `'CM'`-tagged command words among `ws`.
pub open spec fn command_count(ws: Seq<BusWrite>) -> nat
    decreases ws.len(),
{
    if ws.len() == 0 {
        0
    } else {
        command_count(ws.drop_last()) + if is_command(ws.last()) {
            1nat
        } else {
            0nat
        }
    }
}

/// The writes of all the runs `ds`, added up.
pub open spec fn total_writes(ds: Seq<Delivery>) -> nat
    decreases ds.len(),
{
    if ds.len() == 0 {
        0
    } else {
        total_writes(ds.drop_last()) + ds.last().writes as nat
    }
}

/// The writes of the open run, 0 where none is open.
pub open spec fn open_writes(r: Option<Delivery>) -> nat {
    match r {
        Some(d) => d.writes as nat,
        None => 0,
    }
}

proof fn lemma_total_push(ds: Seq<Delivery>, d: Delivery)
    ensures
        total_writes(ds.push(d)) == total_writes(ds) + d.writes,
{
    assert(ds.push(d).drop_last() =~= ds);
}

proof fn lemma_runs_account(ws: Seq<BusWrite>)
    requires
        ws.len() <= u32::MAX,
    ensures
        total_writes(closed_runs(ws)) + open_writes(open_run(ws)) == payload_count(ws),
        forall|i: int| 0 <= i < closed_runs(ws).len() ==> (#[trigger] closed_runs(ws)[i]).writes
            >= 1,
        open_run(ws) matches Some(d) ==> 1 <= d.writes <= ws.len(),
    decreases ws.len(),
{
    if ws.len() > 0 {
        let init = ws.drop_last();
        let w = ws.last();
        lemma_runs_account(init);
        match open_run(init) {
            Some(cur) => {
                if !continues_run(cur, w) {
                    lemma_total_push(closed_runs(init), cur);
                    assert forall|i: int| 0 <= i < closed_runs(ws).len() implies (#[trigger] closed_runs(
                        ws,
                    )[i]).writes >= 1 by {
                        if i < closed_runs(init).len() {
                            assert(closed_runs(ws)[i] == closed_runs(init)[i]);
                        }
                    }
                }
            },
            None => {},
        }
    }
}

/// Every payload write lands in exactly one delivery run: the runs' write
/// counts add up to the number of payload writes, and no run is empty.
pub proof fn lemma_deliveries_account_for_payload(ws: Seq<BusWrite>)
    requires
        ws.len() <= u32::MAX,
    ensures
        total_writes(deliveries_of(ws)) == payload_count(ws),
        forall|i: int| 0 <= i < deliveries_of(ws).len() ==> (#[trigger] deliveries_of(ws)[i]).writes
            >= 1,
{
    lemma_runs_account(ws);
    match open_run(ws) {
        Some(d) => {
            lemma_total_push(closed_runs(ws), d);
            assert forall|i: int| 0 <= i < deliveries_of(ws).len() implies (#[trigger] deliveries_of(
                ws,
            )[i]).writes >= 1 by {
                if i < closed_runs(ws).len() {
                    assert(deliveries_of(ws)[i] == closed_runs(ws)[i]);
                }
            }
        },
        None => {},
    }
}

/// Each `'CM'`-tagged command word gives exactly one command, and nothing
/// else gives one.
pub proof fn lemma_one_command_per_command_word(ws: Seq<BusWrite>)
    ensures
        commands_of(ws).len() == command_count(ws),
    decreases ws.len(),
{
    if ws.len() > 0 {
        lemma_one_command_per_command_word(ws.drop_last());
    }
}

/// Write `k` opens a delivery run: it is a payload write, and the write
/// before it is not a payload write at the same address nibble.
pub open spec fn starts_run(ws: Seq<BusWrite>, k: int) -> bool {
    &&& is_payload_addr(ws[k].addr)
    &&& (k == 0 || !(is_payload_addr(ws[k - 1].addr) && (ws[k - 1].addr & NIBBLE_MASK) == (
    ws[k].addr & NIBBLE_MASK)))
}

/// The number of writes among `ws` that open a delivery run.
pub open spec fn run_starts(ws: Seq<BusWrite>) -> nat
    decreases ws.len(),
{
    if ws.len() == 0 {
        0
    } else {
        run_starts(ws.drop_last()) + if starts_run(ws, ws.len() - 1) {
            1nat
        } else {
            0nat
        }
    }
}

proof fn lemma_run_shape(ws: Seq<BusWrite>)
    ensures
        open_run(ws) is Some <==> ws.len() > 0 && is_payload_addr(ws.last().addr),
        open_run(ws) matches Some(cur) ==> cur.base == (ws.last().addr & NIBBLE_MASK),
        closed_runs(ws).len() + (if open_run(ws) is Some { 1nat } else { 0nat }) == run_starts(
            ws,
        ),
    decreases ws.len(),
{
    if ws.len() > 0 {
        let init = ws.drop_last();
        lemma_run_shape(init);
        if init.len() > 0 {
            assert(ws[ws.len() - 2] == init.last());
        }
    }
}

/// There is one delivery run per write that opens one: a payload write
/// opens a run exactly when the write before it is not a payload write at
/// the same address nibble.
pub proof fn lemma_one_delivery_per_run_start(ws: Seq<BusWrite>)
    ensures
        deliveries_of(ws).len() == run_starts(ws),
{
    lemma_run_shape(ws);
}

/// After `ws`, parameter word `k` holds the data of the last write to
/// `0xF8000020 + 4k`, or 0 where there was none.
proof fn lemma_params_last(ws: Seq<BusWrite>, k: int)
    requires
        0 <= k < 4,
    ensures
        params_after(ws).len() == 4,
        forall|j: int|
            0 <= j < ws.len() && ws[j].addr == PARAM_BASE + 4 * k && (forall|j2: int|
                j < j2 < ws.len() ==> #[trigger] ws[j2].addr != PARAM_BASE + 4 * k)
                ==> params_after(ws)[k] == #[trigger] ws[j].data,
        (forall|j: int| 0 <= j < ws.len() ==> #[trigger] ws[j].addr != PARAM_BASE + 4 * k)
            ==> params_after(ws)[k] == 0,
    decreases ws.len(),
{
    if ws.len() > 0 {
        let init = ws.drop_last();
        let w = ws.last();
        lemma_params_last(init, k);
        let p = params_after(init);
        if is_param_addr(w.addr) {
            let m = ((w.addr - PARAM_BASE) / 4) as int;
            assert(0 <= m < 4);
            assert(w.addr == PARAM_BASE + 4 * m);
            assert(params_after(ws) == p.update(m, w.data));
        }
        assert forall|j: int|
            0 <= j < ws.len() && ws[j].addr == PARAM_BASE + 4 * k && (forall|j2: int|
                j < j2 < ws.len() ==> #[trigger] ws[j2].addr != PARAM_BASE + 4 * k)
                implies params_after(ws)[k] == #[trigger] ws[j].data by {
            if j < ws.len() - 1 {
                assert(ws[ws.len() - 1].addr != PARAM_BASE + 4 * k);
                assert(ws[j] == init[j]);
                assert forall|j2: int| j < j2 < init.len() implies #[trigger] init[j2].addr
                    != PARAM_BASE + 4 * k by {
                    assert(init[j2] == ws[j2]);
                }
            } else {
                assert(ws[j] == w);
            }
        }
        if forall|j: int| 0 <= j < ws.len() ==> #[trigger] ws[j].addr != PARAM_BASE + 4 * k {
            assert forall|j: int| 0 <= j < init.len() implies #[trigger] init[j].addr != PARAM_BASE
                + 4 * k by {
                assert(init[j] == ws[j]);
            }
            assert(ws[ws.len() - 1].addr != PARAM_BASE + 4 * k);
        }
    } else {
        assert(params_after(ws) == seq![0u32, 0u32, 0u32, 0u32]);
    }
}

/// A `'CM'`-tagged command word at `q` gives a command whose code is the
/// low half of the word, whose sequence number and timestamp are the
/// word's, and whose parameter word `k` is the data of the last write to
/// `0xF8000020 + 4k` before it, or 0 where there was none.
pub proof fn lemma_command_params(ws: Seq<BusWrite>, q: int, k: int)
    requires
        0 <= q < ws.len(),
        is_command(ws[q]),
        0 <= k < 4,
    ensures
        commands_of(ws.take(q + 1)).len() > 0,
        commands_of(ws.take(q + 1)).last().code == (ws[q].data & 0xFFFF) as u16,
        commands_of(ws.take(q + 1)).last().seq == ws[q].seq,
        commands_of(ws.take(q + 1)).last().timestamp == ws[q].timestamp,
        commands_of(ws.take(q + 1)).last().params.len() == 4,
        forall|j: int|
            0 <= j < q && ws[j].addr == PARAM_BASE + 4 * k && (forall|j2: int|
                j < j2 < q ==> #[trigger] ws[j2].addr != PARAM_BASE + 4 * k) ==> commands_of(
                ws.take(q + 1),
            ).last().params[k] == #[trigger] ws[j].data,
        (forall|j: int| 0 <= j < q ==> #[trigger] ws[j].addr != PARAM_BASE + 4 * k) ==> commands_of(
            ws.take(q + 1),
        ).last().params[k] == 0,
{
    let pre = ws.take(q);
    assert(ws.take(q + 1).drop_last() =~= pre);
    assert(ws.take(q + 1).last() == ws[q]);
    lemma_params_last(pre, k);
    assert forall|j: int|
        0 <= j < q && ws[j].addr == PARAM_BASE + 4 * k && (forall|j2: int|
            j < j2 < q ==> #[trigger] ws[j2].addr != PARAM_BASE + 4 * k) implies commands_of(
        ws.take(q + 1),
    ).last().params[k] == #[trigger] ws[j].data by {
        assert(pre[j] == ws[j]);
        assert forall|j2: int| j < j2 < pre.len() implies #[trigger] pre[j2].addr != PARAM_BASE
            + 4 * k by {
            assert(pre[j2] == ws[j2]);
        }
    }
    if forall|j: int| 0 <= j < q ==> #[trigger] ws[j].addr != PARAM_BASE + 4 * k {
        assert forall|j: int| 0 <= j < pre.len() implies #[trigger] pre[j].addr != PARAM_BASE + 4
            * k by {
            assert(pre[j] == ws[j]);
        }
    }
}

/// A write that names a descriptor entry: it stands at an entry's base in
/// the descriptor table.
pub open spec fn is_id_write(w: BusWrite) -> bool {
    is_desc_addr(w.addr) && (w.addr - DESC_BASE) % 8 == 0
}

/// After an id write at `j` and no descriptor-table write since, that id
/// write is the one waiting for its size.
proof fn lemma_pending_id(ws: Seq<BusWrite>, j: int, q: int)
    requires
        0 <= j < q <= ws.len(),
        is_id_write(ws[j]),
        forall|i: int| j < i < q ==> !is_desc_addr(#[trigger] ws[i].addr),
    ensures
        pending_descriptor(ws.take(q)) == Some((ws[j].addr, ws[j].data, ws[j].seq)),
    decreases q - j,
{
    let t = ws.take(q);
    assert(t.drop_last() =~= ws.take(q - 1));
    assert(t.last() == ws[q - 1]);
    if q - 1 > j {
        lemma_pending_id(ws, j, q - 1);
    }
}

/// A size write at `q`, at the word after the entry base of the last
/// descriptor-table write before it (an id write at `j`), gives one
/// descriptor: its slot id is the id write's data, its size the size
/// write's data, its sequence number the id write's.
pub proof fn lemma_descriptor_pairs_id_and_size(ws: Seq<BusWrite>, j: int, q: int)
    requires
        0 <= j < q < ws.len(),
        is_id_write(ws[j]),
        forall|i: int| j < i < q ==> !is_desc_addr(#[trigger] ws[i].addr),
        is_desc_addr(ws[q].addr),
        ws[q].addr == ws[j].addr + 4,
    ensures
        descriptors_of(ws.take(q + 1)) == descriptors_of(ws.take(q)).push(
            Descriptor { slot_id: ws[j].data, size: ws[q].data, seq: ws[j].seq },
        ),
{
    lemma_pending_id(ws, j, q);
    let t = ws.take(q + 1);
    assert(t.drop_last() =~= ws.take(q));
    assert(t.last() == ws[q]);
    assert((ws[q].addr - DESC_BASE) % 8 != 0);
}

/// A write that opens a delivery run opens it at its own address nibble,
/// with one write, and with its own sequence number as the run's first.
pub proof fn lemma_run_opens_at_its_write(ws: Seq<BusWrite>, k: int)
    requires
        0 <= k < ws.len(),
        starts_run(ws, k),
    ensures
        open_run(ws.take(k + 1)) == Some(
            Delivery { base: ws[k].addr & NIBBLE_MASK, writes: 1, first_seq: ws[k].seq },
        ),
        deliveries_of(ws.take(k + 1)).last() == (Delivery {
            base: ws[k].addr & NIBBLE_MASK,
            writes: 1,
            first_seq: ws[k].seq,
        }),
{
    let t = ws.take(k + 1);
    assert(t.drop_last() =~= ws.take(k));
    assert(t.last() == ws[k]);
    lemma_run_shape(ws.take(k));
    if k > 0 {
        assert(ws.take(k).last() == ws[k - 1]);
    }
}

/// A payload write that does not open a run adds one write to the run it
/// continues, which keeps its address nibble and its first sequence number.
pub proof fn lemma_run_continues(ws: Seq<BusWrite>, k: int)
    requires
        0 <= k < ws.len(),
        is_payload_addr(ws[k].addr),
        !starts_run(ws, k),
    ensures
        open_run(ws.take(k)) is Some,
        open_run(ws.take(k + 1)) == Some(
            Delivery {
                writes: (open_run(ws.take(k))->0.writes + 1) as u32,
                ..open_run(ws.take(k))->0
            },
        ),
        open_run(ws.take(k))->0.base == (ws[k].addr & NIBBLE_MASK),
{
    let t = ws.take(k + 1);
    assert(t.drop_last() =~= ws.take(k));
    assert(t.last() == ws[k]);
    lemma_run_shape(ws.take(k));
    assert(ws.take(k).last() == ws[k - 1]);
}

} // verus!
