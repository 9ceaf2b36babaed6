//! The after-the-fact boot decoder.
//!
//! The inputs are a capture's records, each already decoded through the
//! capture's schema into its `addr`, `data` and `seq` fields, and the
//! platform's documented command vocabulary. The decoder reproduces the boot
//! handshake: the mailbox commands with their parameter blocks, the per-slot
//! descriptor table, and the payload deliveries.
//!
//! The addresses are the platform's mailbox map: the command word at
//! `0xF8000000` carries the `'CM'` tag in its high half; the parameter block is
//! the four words `0xF8000020..0xF800002C`; the descriptor table is
//! `0xF8002000 + slot_id*8 -> [slot_id, size]`; a slot's payload lands at its
//! own address nibble.
use vstd::prelude::*;

pub mod laws;

verus! {

/// The `'CM'` tag in the high half of a command word (`0x434D` = b"CM").
pub const CM_TAG: u32 = 0x434D;

/// The command mailbox base: the command word address.
pub const CMD_WORD: u32 = 0xF800_0000;

/// The parameter block: `0xF8000020..0xF800002C`, four words.
pub const PARAM_BASE: u32 = 0xF800_0020;

/// The dataslot descriptor table base (`0xF8002000 + slot_id*8`).
pub const DESC_BASE: u32 = 0xF800_2000;

/// The top of the descriptor table region examined.
pub const DESC_TOP: u32 = 0xF800_2100;

/// The address nibble that selects a payload slot.
pub const NIBBLE_MASK: u32 = 0xF000_0000;

/// The name the documented Host-to-Target vocabulary gives a command code.
pub open spec fn command_name_spec(code: u16) -> &'static str {
    if code == 0x0000 {
        "Request Status"
    } else if code == 0x0010 {
        "Reset Enter"
    } else if code == 0x0011 {
        "Reset Exit"
    } else if code == 0x0080 {
        "Data Slot Request Read"
    } else if code == 0x0082 {
        "Data Slot Request Write"
    } else if code == 0x008A {
        "Data Slot Update"
    } else if code == 0x008F {
        "Data Slot Access Complete"
    } else if code == 0x0090 {
        "Real-time Clock Data"
    } else if code == 0x00A0 {
        "Savestate: Start/Query"
    } else if code == 0x00A4 {
        "Savestate: Load/Query"
    } else if code == 0x00B0 {
        "OS Notify: Menu State"
    } else if code == 0x00B1 {
        "OS Notify: Cartridge Adapter"
    } else if code == 0x00B2 {
        "OS Notify: Docked State"
    } else if code == 0x00B8 {
        "OS Notify: Display Mode"
    } else {
        "(undocumented)"
    }
}

/// The documented Host-to-Target command vocabulary. A code with no
/// documented name is rendered as unknown rather than guessed.
pub fn command_name(code: u16) -> (name: &'static str)
    ensures
        name == command_name_spec(code),
{
    match code {
        0x0000 => "Request Status",
        0x0010 => "Reset Enter",
        0x0011 => "Reset Exit",
        0x0080 => "Data Slot Request Read",
        0x0082 => "Data Slot Request Write",
        0x008A => "Data Slot Update",
        0x008F => "Data Slot Access Complete",
        0x0090 => "Real-time Clock Data",
        0x00A0 => "Savestate: Start/Query",
        0x00A4 => "Savestate: Load/Query",
        0x00B0 => "OS Notify: Menu State",
        0x00B1 => "OS Notify: Cartridge Adapter",
        0x00B2 => "OS Notify: Docked State",
        0x00B8 => "OS Notify: Display Mode",
        _ => "(undocumented)",
    }
}

} // verus!

verus! {

/// A field value as the capture's schema decodes it. The numeric encodings
/// carry their value; any other encoding is `Other`.
#[derive(Debug, Clone, Copy, PartialEq, Eq)]
pub enum FieldValue {
    U(u128),
    Hex(u128),
    Enum(u128),
    Other,
}

/// One record of a capture, decoded through the capture's schema: the
/// recorder timestamp, and the `addr`, `data` and `seq` fields where the
/// record's layout has them.
#[derive(Debug, Clone, Copy, PartialEq, Eq)]
pub struct DecodedRecord {
    pub timestamp: u32,
    pub addr: Option<FieldValue>,
    pub data: Option<FieldValue>,
    pub seq: Option<FieldValue>,
}

/// A numeric field's value where it fits in 32 bits.
pub open spec fn field_u32_spec(f: Option<FieldValue>) -> Option<u32> {
    match f {
        Some(FieldValue::U(x)) => if x <= u32::MAX { Some(x as u32) } else { None },
        Some(FieldValue::Hex(x)) => if x <= u32::MAX { Some(x as u32) } else { None },
        Some(FieldValue::Enum(x)) => if x <= u32::MAX { Some(x as u32) } else { None },
        _ => None,
    }
}

/// A numeric field's value where it fits in 32 bits; `None` for a missing
/// field, a non-numeric one, or one too wide.
pub fn field_u32(f: Option<FieldValue>) -> (r: Option<u32>)
    ensures
        r == field_u32_spec(f),
{
    match f {
        Some(FieldValue::U(x)) | Some(FieldValue::Hex(x)) | Some(FieldValue::Enum(x)) => {
            if x <= 0xFFFF_FFFFu128 {
                Some(x as u32)
            } else {
                None
            }
        },
        _ => None,
    }
}

/// One bus write the recorder saw: a record that carries `addr`, `data` and
/// `seq` (an exception record carries `gap` in place of `data`, so this
/// selects the ring events whatever the schema names the record).
#[derive(Debug, Clone, Copy, PartialEq, Eq)]
pub struct BusWrite {
    pub addr: u32,
    pub data: u32,
    pub seq: u32,
    pub timestamp: u32,
}

/// The bus write a record stands for, if it is one.
pub open spec fn bus_write_of(r: Option<DecodedRecord>) -> Option<BusWrite> {
    match r {
        Some(d) => match (field_u32_spec(d.addr), field_u32_spec(d.data), field_u32_spec(d.seq)) {
            (Some(addr), Some(data), Some(seq)) => Some(
                BusWrite { addr, data, seq, timestamp: d.timestamp },
            ),
            _ => None,
        },
        None => None,
    }
}

/// The bus writes among `records`, in order.
pub open spec fn bus_writes(records: Seq<Option<DecodedRecord>>) -> Seq<BusWrite>
    decreases records.len(),
{
    if records.len() == 0 {
        Seq::empty()
    } else {
        let before = bus_writes(records.drop_last());
        match bus_write_of(records.last()) {
            Some(w) => before.push(w),
            None => before,
        }
    }
}

/// A write to one of the four parameter-block words.
pub open spec fn is_param_addr(a: u32) -> bool {
    PARAM_BASE <= a < PARAM_BASE + 16 && a % 4 == 0
}

/// A `'CM'`-tagged write to the command word.
pub open spec fn is_command(w: BusWrite) -> bool {
    w.addr == CMD_WORD && (w.data >> 16u32) == CM_TAG
}

/// A write into the examined part of the descriptor table.
pub open spec fn is_desc_addr(a: u32) -> bool {
    DESC_BASE <= a < DESC_TOP
}

/// A payload write: any address below the mailbox region.
pub open spec fn is_payload_addr(a: u32) -> bool {
    a < 0xF000_0000u32
}

/// The parameter block as latched after `ws`: each word is the data of the
/// last write to it, 0 before any.
pub open spec fn params_after(ws: Seq<BusWrite>) -> Seq<u32>
    decreases ws.len(),
{
    if ws.len() == 0 {
        seq![0u32, 0u32, 0u32, 0u32]
    } else {
        let p = params_after(ws.drop_last());
        let w = ws.last();
        if is_param_addr(w.addr) {
            p.update(((w.addr - PARAM_BASE) / 4) as int, w.data)
        } else {
            p
        }
    }
}

/// One decoded mailbox command, as a value: the parameter block is a
/// sequence of its four words.
pub struct CommandModel {
    pub seq: u32,
    pub timestamp: u32,
    pub code: u16,
    pub params: Seq<u32>,
}

/// The commands among `ws`: each `'CM'`-tagged command word, in order, with
/// the parameter block latched before it.
pub open spec fn commands_of(ws: Seq<BusWrite>) -> Seq<CommandModel>
    decreases ws.len(),
{
    if ws.len() == 0 {
        Seq::empty()
    } else {
        let before = commands_of(ws.drop_last());
        let w = ws.last();
        if is_command(w) {
            before.push(
                CommandModel {
                    seq: w.seq,
                    timestamp: w.timestamp,
                    code: (w.data & 0xFFFFu32) as u16,
                    params: params_after(ws.drop_last()),
                },
            )
        } else {
            before
        }
    }
}

/// The descriptor id write still waiting for its size write after `ws`, as
/// (table address, slot id, seq).
pub open spec fn pending_descriptor(ws: Seq<BusWrite>) -> Option<(u32, u32, u32)>
    decreases ws.len(),
{
    if ws.len() == 0 {
        None
    } else {
        let w = ws.last();
        if is_desc_addr(w.addr) {
            if (w.addr - DESC_BASE) % 8 == 0 {
                Some((w.addr, w.data, w.seq))
            } else {
                None
            }
        } else {
            pending_descriptor(ws.drop_last())
        }
    }
}

/// The descriptors among `ws`: an id write at an entry's base paired with a
/// size write at the entry's next word, the next descriptor-table write after
/// it.
pub open spec fn descriptors_of(ws: Seq<BusWrite>) -> Seq<Descriptor>
    decreases ws.len(),
{
    if ws.len() == 0 {
        Seq::empty()
    } else {
        let before = descriptors_of(ws.drop_last());
        let w = ws.last();
        match pending_descriptor(ws.drop_last()) {
            Some((id_addr, slot_id, seq)) => if is_desc_addr(w.addr) && (w.addr - DESC_BASE) % 8
                != 0 && w.addr == id_addr + 4 {
                before.push(Descriptor { slot_id, size: w.data, seq })
            } else {
                before
            },
            None => before,
        }
    }
}

/// Whether `w` continues the delivery run `cur`: a payload write at the
/// run's base nibble.
pub open spec fn continues_run(cur: Delivery, w: BusWrite) -> bool {
    is_payload_addr(w.addr) && (w.addr & NIBBLE_MASK) == cur.base
}

/// The delivery run still open after `ws`.
pub open spec fn open_run(ws: Seq<BusWrite>) -> Option<Delivery>
    decreases ws.len(),
{
    if ws.len() == 0 {
        None
    } else {
        let w = ws.last();
        let kept = match open_run(ws.drop_last()) {
            Some(cur) => if continues_run(cur, w) { Some(cur) } else { None },
            None => None,
        };
        if is_payload_addr(w.addr) {
            match kept {
                Some(cur) => Some(Delivery { writes: (cur.writes + 1) as u32, ..cur }),
                None => Some(Delivery { base: w.addr & NIBBLE_MASK, writes: 1, first_seq: w.seq }),
            }
        } else {
            kept
        }
    }
}

/// The delivery runs closed by `ws`: a run ends the moment a write leaves
/// the slot's payload stream.
pub open spec fn closed_runs(ws: Seq<BusWrite>) -> Seq<Delivery>
    decreases ws.len(),
{
    if ws.len() == 0 {
        Seq::empty()
    } else {
        let before = closed_runs(ws.drop_last());
        match open_run(ws.drop_last()) {
            Some(cur) => if continues_run(cur, ws.last()) { before } else { before.push(cur) },
            None => before,
        }
    }
}

/// Every delivery run of `ws`: the closed ones, then the one left open.
pub open spec fn deliveries_of(ws: Seq<BusWrite>) -> Seq<Delivery> {
    match open_run(ws) {
        Some(cur) => closed_runs(ws).push(cur),
        None => closed_runs(ws),
    }
}

/// One decoded mailbox command: the `'CM'` command word and the parameter
/// block latched before it.
#[derive(Debug, Clone, Copy, PartialEq, Eq)]
pub struct MailboxCommand {
    /// The recorder sequence number of the command word.
    pub seq: u32,
    /// The recorder timestamp of the command word, in core clocks.
    pub timestamp: u32,
    /// The command code (`0x00XX`), the low half of the `'CM'` word.
    pub code: u16,
    /// The parameter block `0xF8000020..0xF800002C`, as latched when the
    /// command landed.
    pub params: [u32; 4],
}

impl View for MailboxCommand {
    type V = CommandModel;

    open spec fn view(&self) -> CommandModel {
        CommandModel {
            seq: self.seq,
            timestamp: self.timestamp,
            code: self.code,
            params: self.params@,
        }
    }
}

/// One dataslot descriptor: `0xF8002000 + slot_id*8 -> [slot_id, size]`.
#[derive(Debug, Clone, Copy, PartialEq, Eq)]
pub struct Descriptor {
    pub slot_id: u32,
    pub size: u32,
    /// The recorder sequence of the id write.
    pub seq: u32,
}

/// A payload delivery: a run of writes at a slot's base address.
#[derive(Debug, Clone, Copy, PartialEq, Eq)]
pub struct Delivery {
    /// The slot's base address (its address nibble, e.g. `0x00000000`,
    /// `0x10000000`, `0x20000000`).
    pub base: u32,
    /// The number of payload writes observed in the run.
    pub writes: u32,
    /// The recorder sequence of the first payload write.
    pub first_seq: u32,
}

/// The decoded boot account: the handshake, the descriptor table, the
/// deliveries.
#[derive(Debug, Clone, PartialEq, Eq)]
pub struct BootRecord {
    pub commands: Vec<MailboxCommand>,
    pub descriptors: Vec<Descriptor>,
    pub deliveries: Vec<Delivery>,
}

} // verus!

verus! {

impl Default for BootRecord {
    /// The empty account: no command, no descriptor, no delivery.
    fn default() -> (r: BootRecord)
        ensures
            r.commands@.len() == 0,
            r.descriptors@.len() == 0,
            r.deliveries@.len() == 0,
    {
        BootRecord { commands: Vec::new(), descriptors: Vec::new(), deliveries: Vec::new() }
    }
}

impl BootRecord {
    /// The decoded account, with each command's parameter block as a
    /// sequence.
    pub open spec fn commands_model(&self) -> Seq<CommandModel> {
        self.commands@.map_values(|c: MailboxCommand| c@)
    }
}

/// Decodes the boot account from the records alone. The command parameter
/// block is latched as its words are written and snapshotted onto each
/// `'CM'` command; descriptor writes are paired id to size; contiguous
/// writes to a non-mailbox address are grouped into a delivery run. A record
/// that did not decode, or that lacks `addr`, `data` or `seq`, is passed
/// over.
pub fn decode(records: &[Option<DecodedRecord>]) -> (rec: BootRecord)
    requires
        records@.len() <= u32::MAX,
    ensures
        rec.commands_model() == commands_of(bus_writes(records@)),
        rec.descriptors@ == descriptors_of(bus_writes(records@)),
        rec.deliveries@ == deliveries_of(bus_writes(records@)),
{
    let mut p0: u32 = 0;
    let mut p1: u32 = 0;
    let mut p2: u32 = 0;
    let mut p3: u32 = 0;
    let mut commands: Vec<MailboxCommand> = Vec::new();
    let mut descriptors: Vec<Descriptor> = Vec::new();
    let mut deliveries: Vec<Delivery> = Vec::new();
    let mut pending: Option<(u32, u32, u32)> = None;
    let mut run: Option<Delivery> = None;
    let mut i: usize = 0;
    while i < records.len()
        invariant
            i <= records@.len(),
            records@.len() <= u32::MAX,
            seq![p0, p1, p2, p3] == params_after(bus_writes(records@.take(i as int))),
            commands@.map_values(|c: MailboxCommand| c@) == commands_of(
                bus_writes(records@.take(i as int)),
            ),
            pending == pending_descriptor(bus_writes(records@.take(i as int))),
            descriptors@ == descriptors_of(bus_writes(records@.take(i as int))),
            run == open_run(bus_writes(records@.take(i as int))),
            deliveries@ == closed_runs(bus_writes(records@.take(i as int))),
            run matches Some(cur) ==> cur.writes <= i,
            pending matches Some((ia, _, _)) ==> DESC_BASE <= ia < DESC_TOP,
        decreases records.len() - i,
    {
        let ghost ws = bus_writes(records@.take(i as int));
        assert(records@.take(i + 1).drop_last() =~= records@.take(i as int));
        let r = records[i];
        let w: Option<BusWrite> = match r {
            Some(d) => match (field_u32(d.addr), field_u32(d.data), field_u32(d.seq)) {
                (Some(addr), Some(data), Some(seq)) => Some(
                    BusWrite { addr, data, seq, timestamp: d.timestamp },
                ),
                _ => None,
            },
            None => None,
        };
        assert(w == bus_write_of(records@[i as int]));
        if let Some(w) = w {
            let ghost ws2 = ws.push(w);
            assert(ws2.drop_last() =~= ws);
            assert(bus_writes(records@.take(i + 1)) == ws2);
            let a = w.addr;
            // a run ends the moment a write leaves the slot's payload stream
            if let Some(cur) = run {
                if !(a < 0xF000_0000u32 && (a & NIBBLE_MASK) == cur.base) {
                    deliveries.push(cur);
                    run = None;
                }
            }
            if PARAM_BASE <= a && a < PARAM_BASE + 16 && a % 4 == 0 {
                let slot = (a - PARAM_BASE) / 4;
                if slot == 0 {
                    p0 = w.data;
                } else if slot == 1 {
                    p1 = w.data;
                } else if slot == 2 {
                    p2 = w.data;
                } else {
                    p3 = w.data;
                }
                assert(seq![p0, p1, p2, p3] =~= params_after(ws2));
            } else if a == CMD_WORD && (w.data >> 16u32) == CM_TAG {
                let ghost before = commands@;
                commands.push(
                    MailboxCommand {
                        seq: w.seq,
                        timestamp: w.timestamp,
                        code: (w.data & 0xFFFFu32) as u16,
                        params: [p0, p1, p2, p3],
                    },
                );
                assert([p0, p1, p2, p3]@ =~= seq![p0, p1, p2, p3]);
                assert(commands@.map_values(|c: MailboxCommand| c@) =~= before.map_values(
                    |c: MailboxCommand| c@,
                ).push(commands@.last()@));
            } else if DESC_BASE <= a && a < DESC_TOP {
                if (a - DESC_BASE) % 8 == 0 {
                    pending = Some((a, w.data, w.seq));
                } else {
                    if let Some((id_addr, slot_id, dseq)) = pending {
                        if a == id_addr + 4 {
                            descriptors.push(Descriptor { slot_id, size: w.data, seq: dseq });
                        }
                    }
                    pending = None;
                }
            } else if a < 0xF000_0000u32 {
                let base = a & NIBBLE_MASK;
                match run {
                    Some(cur) => {
                        run = Some(Delivery { base: cur.base, writes: cur.writes + 1, first_seq: cur.first_seq });
                    },
                    None => {
                        run = Some(Delivery { base, writes: 1, first_seq: w.seq });
                    },
                }
            }
            assert(commands@.map_values(|c: MailboxCommand| c@) =~= commands_of(ws2));
            assert(descriptors@ =~= descriptors_of(ws2));
            assert(deliveries@ =~= closed_runs(ws2));
        } else {
            assert(bus_writes(records@.take(i + 1)) == ws);
        }
        i = i + 1;
    }
    assert(records@.take(records@.len() as int) =~= records@);
    if let Some(cur) = run {
        deliveries.push(cur);
    }
    let rec = BootRecord { commands, descriptors, deliveries };
    assert(rec.deliveries@ =~= deliveries_of(bus_writes(records@)));
    rec
}

} // verus!
