//! The ARMv7-M register file: 26 slots of 32 bits, `R0`..`R15` in slots 0
//! to 15 and `XPSR` in slot 25.
use crate::gdb::{le_u32, read_le_u32, string_bytes, text, SlotRead};
use crate::resource::{ResourceInfo, ResourceRead};
use crate::wire::{numbered, parse_numbered};
use vstd::prelude::*;

verus! {

/// The number of register slots.
pub const SLOTS: usize = 26;

/// Byte `k` (0 to 3), least significant first, of `w`.
pub open spec fn le_byte32(w: u32, k: int) -> u8 {
    ((w >> ((8 * k) as u32)) & 0xff) as u8
}

/// The bytes GDB expects for `regs`: each slot little-endian, slots 16 to
/// 23 followed by eight zero bytes, since GDB takes them for 96-bit
/// registers.
pub open spec fn serialized(regs: Seq<u32>) -> Seq<u8>
    decreases regs.len(),
{
    if regs.len() == 0 {
        Seq::empty()
    } else {
        let n = regs.len() - 1;
        let w = regs.last();
        let base = serialized(regs.drop_last()) + seq![
            le_byte32(w, 0),
            le_byte32(w, 1),
            le_byte32(w, 2),
            le_byte32(w, 3),
        ];
        if 16 <= n < 24 {
            base + Seq::new(8, |i: int| 0u8)
        } else {
            base
        }
    }
}

/// The register file as GDB lays it out.
#[derive(Debug, Clone, PartialEq)]
pub struct GuestState {
    pub regs: [u32; 26],
}

impl Default for GuestState {
    /// All registers zero.
    fn default() -> (r: GuestState)
        ensures
            r.regs@ == Seq::new(26, |i: int| 0u32),
    {
        let regs: [u32; 26] = [0u32; 26];
        assert(regs@ =~= Seq::new(26, |i: int| 0u32));
        GuestState { regs }
    }
}

impl GuestState {
    /// The program counter, slot 15.
    pub fn pc(&self) -> (r: u32)
        ensures
            r == self.regs@[15],
    {
        self.regs[15]
    }

    /// The bytes GDB expects for the register file.
    pub fn gdb_serialize(&self) -> (r: Vec<u8>)
        ensures
            r@ == serialized(self.regs@),
    {
        let mut out: Vec<u8> = Vec::new();
        let mut i: usize = 0;
        while i < SLOTS
            invariant
                0 <= i <= SLOTS,
                self.regs@.len() == 26,
                out@ == serialized(self.regs@.take(i as int)),
            decreases SLOTS - i,
        {
            let w = self.regs[i];
            assert(self.regs@.take(i as int + 1).drop_last() =~= self.regs@.take(i as int));
            assert(self.regs@.take(i as int + 1).last() == w);
            let b0: u8 = ((w >> 0u32) & 0xff) as u8;
            let b1: u8 = ((w >> 8u32) & 0xff) as u8;
            let b2: u8 = ((w >> 16u32) & 0xff) as u8;
            let b3: u8 = ((w >> 24u32) & 0xff) as u8;
            assert(b0 == le_byte32(w, 0) && b1 == le_byte32(w, 1) && b2 == le_byte32(w, 2) && b3
                == le_byte32(w, 3));
            out.push(b0);
            out.push(b1);
            out.push(b2);
            out.push(b3);
            if i >= 16 && i < 24 {
                let mut z: usize = 0;
                while z < 8
                    invariant
                        0 <= z <= 8,
                        out@ == serialized(self.regs@.take(i as int)) + seq![
                            le_byte32(w, 0),
                            le_byte32(w, 1),
                            le_byte32(w, 2),
                            le_byte32(w, 3),
                        ] + Seq::new(z as nat, |k: int| 0u8),
                    decreases 8 - z,
                {
                    out.push(0);
                    z = z + 1;
                    assert(out@ =~= serialized(self.regs@.take(i as int)) + seq![
                        le_byte32(w, 0),
                        le_byte32(w, 1),
                        le_byte32(w, 2),
                        le_byte32(w, 3),
                    ] + Seq::new(z as nat, |k: int| 0u8));
                }
            } else {
                assert(out@ =~= serialized(self.regs@.take(i as int)) + seq![
                    le_byte32(w, 0),
                    le_byte32(w, 1),
                    le_byte32(w, 2),
                    le_byte32(w, 3),
                ]);
            }
            i = i + 1;
        }
        assert(self.regs@.take(26) =~= self.regs@);
        out
    }

    /// Takes the registers from GDB's bytes, four per slot in order. Fails
    /// when the length is not a multiple of four, leaving the file as it
    /// was, or when the bytes run out before the last slot, after taking
    /// the slots they cover.
    pub fn gdb_deserialize(&mut self, bytes: &[u8]) -> (r: Result<(), ()>)
        ensures
            bytes@.len() % 4 != 0 ==> r is Err && final(self).regs@ == old(self).regs@,
            bytes@.len() % 4 == 0 ==> {
                &&& (r is Ok <==> bytes@.len() / 4 >= 26)
                &&& forall|j: int|
                    0 <= j < 26 ==> #[trigger] final(self).regs@[j] == if j < bytes@.len() / 4 {
                        le_u32(bytes@, 4 * j)
                    } else {
                        old(self).regs@[j]
                    }
            },
    {
        if bytes.len() % 4 != 0 {
            return Err(());
        }
        let n = bytes.len() / 4;
        let mut j: usize = 0;
        while j < SLOTS
            invariant
                0 <= j <= SLOTS,
                j <= n,
                n == bytes@.len() / 4,
                bytes@.len() % 4 == 0,
                self.regs@.len() == 26,
                forall|k: int|
                    0 <= k < 26 ==> #[trigger] self.regs@[k] == if k < j && k < n {
                        le_u32(bytes@, 4 * k)
                    } else {
                        old(self).regs@[k]
                    },
            decreases SLOTS - j,
        {
            if j >= n {
                return Err(());
            }
            let w = read_le_u32(bytes, 4 * j);
            self.regs[j] = w;
            j = j + 1;
        }
        Ok(())
    }

    /// Stores the low 32 bits of the first word of each read in the slot
    /// of its plan entry; an empty read leaves its slot alone.
    pub fn apply_reads(&mut self, plan: &Vec<SlotRead>, reads: &Vec<ResourceRead>)
        requires
            plan@.len() == reads@.len(),
        ensures
            final(self).regs@ == applied(old(self).regs@, plan@, reads@),
    {
        let mut i: usize = 0;
        while i < plan.len()
            invariant
                0 <= i <= plan@.len(),
                plan@.len() == reads@.len(),
                self.regs@ == applied(old(self).regs@, plan@.take(i as int), reads@),
            decreases plan@.len() - i,
        {
            assert(plan@.take(i as int + 1).drop_last() =~= plan@.take(i as int));
            proof {
                lemma_applied_len(old(self).regs@, plan@.take(i as int), reads@);
            }
            let slot = plan[i].slot;
            if reads[i].data.len() > 0 && slot < SLOTS {
                self.regs[slot] = reads[i].data[0] as u32;
            }
            i = i + 1;
        }
        assert(plan@.take(plan@.len() as int) =~= plan@);
    }
}

/// The register file after storing, in order, the low 32 bits of the first
/// word of each non-empty read in the slot of its plan entry.
pub open spec fn applied(regs: Seq<u32>, plan: Seq<SlotRead>, reads: Seq<ResourceRead>) -> Seq<
    u32,
>
    decreases plan.len(),
{
    if plan.len() == 0 {
        regs
    } else {
        let prev = applied(regs, plan.drop_last(), reads);
        let k = plan.len() - 1;
        if reads[k].data@.len() > 0 && plan[k].slot < prev.len() {
            prev.update(plan[k].slot as int, reads[k].data@[0] as u32)
        } else {
            prev
        }
    }
}

proof fn lemma_applied_len(regs: Seq<u32>, plan: Seq<SlotRead>, reads: Seq<ResourceRead>)
    ensures
        applied(regs, plan, reads).len() == regs.len(),
    decreases plan.len(),
{
    if plan.len() > 0 {
        lemma_applied_len(regs, plan.drop_last(), reads);
    }
}


/// A register as GDB numbers it.
#[derive(Debug, Clone, Copy, PartialEq, Eq, Structural)]
pub enum Register {
    R0,
    R1,
    R2,
    R3,
    R4,
    R5,
    R6,
    R7,
    R8,
    R9,
    R10,
    R11,
    R12,
    SP,
    LR,
    PC,
    XPSR,
}

impl Register {
    /// The register of GDB's number `id`, with a size hint of zero: 0 to
    /// 15 and 25 are registers, other numbers are not.
    pub fn from_raw_id(id: usize) -> (r: Option<(Register, usize)>)
        ensures
            id == 0 ==> r == Some((Register::R0, 0usize)),
            id == 1 ==> r == Some((Register::R1, 0usize)),
            id == 2 ==> r == Some((Register::R2, 0usize)),
            id == 3 ==> r == Some((Register::R3, 0usize)),
            id == 4 ==> r == Some((Register::R4, 0usize)),
            id == 5 ==> r == Some((Register::R5, 0usize)),
            id == 6 ==> r == Some((Register::R6, 0usize)),
            id == 7 ==> r == Some((Register::R7, 0usize)),
            id == 8 ==> r == Some((Register::R8, 0usize)),
            id == 9 ==> r == Some((Register::R9, 0usize)),
            id == 10 ==> r == Some((Register::R10, 0usize)),
            id == 11 ==> r == Some((Register::R11, 0usize)),
            id == 12 ==> r == Some((Register::R12, 0usize)),
            id == 13 ==> r == Some((Register::SP, 0usize)),
            id == 14 ==> r == Some((Register::LR, 0usize)),
            id == 15 ==> r == Some((Register::PC, 0usize)),
            id == 25 ==> r == Some((Register::XPSR, 0usize)),
            (16 <= id < 25 || id > 25) ==> r is None,
    {
        if id == 0 {
            Some((Register::R0, 0))
        } else if id == 1 {
            Some((Register::R1, 0))
        } else if id == 2 {
            Some((Register::R2, 0))
        } else if id == 3 {
            Some((Register::R3, 0))
        } else if id == 4 {
            Some((Register::R4, 0))
        } else if id == 5 {
            Some((Register::R5, 0))
        } else if id == 6 {
            Some((Register::R6, 0))
        } else if id == 7 {
            Some((Register::R7, 0))
        } else if id == 8 {
            Some((Register::R8, 0))
        } else if id == 9 {
            Some((Register::R9, 0))
        } else if id == 10 {
            Some((Register::R10, 0))
        } else if id == 11 {
            Some((Register::R11, 0))
        } else if id == 12 {
            Some((Register::R12, 0))
        } else if id == 13 {
            Some((Register::SP, 0))
        } else if id == 14 {
            Some((Register::LR, 0))
        } else if id == 15 {
            Some((Register::PC, 0))
        } else if id == 25 {
            Some((Register::XPSR, 0))
        } else {
            None
        }
    }
}

/// The slot of the resource named `name`: `R0`..`R15` to 0..15, `XPSR` to
/// 25.
pub open spec fn slot_of_name(name: Seq<u8>) -> Option<usize> {
    if name == seq![88u8, 80u8, 83u8, 82u8] {
        Some(25)
    } else {
        match numbered(name, 82u8, 15) {
            Some(n) => Some(n as usize),
            None => None,
        }
    }
}

/// The slot of the resource named `name`, if it is a register of the file.
pub fn register_slot(name: &[u8]) -> (r: Option<usize>)
    ensures
        r == slot_of_name(name@),
{
    let xpsr: Vec<u8> = vec![88u8, 80u8, 83u8, 82u8];
    assert(xpsr@ =~= seq![88u8, 80u8, 83u8, 82u8]);
    if crate::wire::bytes_eq(name, xpsr.as_slice()) {
        Some(25)
    } else {
        match parse_numbered(name, 82, 15) {
            Some(n) => Some(n as usize),
            None => None,
        }
    }
}

/// The reads that fill the register file: one per resource whose name
/// maps to a slot, in the order of the resources.
pub open spec fn plan_of(rs: Seq<ResourceInfo>) -> Seq<SlotRead>
    decreases rs.len(),
{
    if rs.len() == 0 {
        Seq::empty()
    } else {
        let prev = plan_of(rs.drop_last());
        match slot_of_name(text(&rs.last().name)) {
            Some(slot) => prev.push(SlotRead { resource: rs.last().id, slot }),
            None => prev,
        }
    }
}

/// The reads that fill the register file from `resources`.
pub fn register_plan(resources: &Vec<ResourceInfo>) -> (r: Vec<SlotRead>)
    ensures
        r@ == plan_of(resources@),
{
    let mut out: Vec<SlotRead> = Vec::new();
    let mut i: usize = 0;
    while i < resources.len()
        invariant
            0 <= i <= resources@.len(),
            out@ == plan_of(resources@.take(i as int)),
        decreases resources@.len() - i,
    {
        assert(resources@.take(i as int + 1).drop_last() =~= resources@.take(i as int));
        match register_slot(string_bytes(&resources[i].name)) {
            Some(slot) => {
                out.push(SlotRead { resource: resources[i].id, slot });
            },
            None => {},
        }
        i = i + 1;
    }
    assert(resources@.take(resources@.len() as int) =~= resources@);
    out
}

/// Each plan entry has a slot of its own.
pub open spec fn distinct_slots(plan: Seq<SlotRead>) -> bool {
    forall|a: int, b: int| 0 <= a < b < plan.len() ==> plan[a].slot != plan[b].slot
}

/// Register round trip: starting from a zeroed file, when every mapped
/// register reads back a word `v` first, the file holds the low 32 bits
/// of `v` in that register's slot and zero in every slot that no register maps to.
pub proof fn lemma_register_round_trip(resources: Seq<ResourceInfo>, reads: Seq<ResourceRead>)
    requires
        distinct_slots(plan_of(resources)),
        reads.len() == plan_of(resources).len(),
        forall|k: int| 0 <= k < reads.len() ==> (#[trigger] reads[k]).data@.len() > 0,
    ensures
        ({
            let plan = plan_of(resources);
            let regs = applied(Seq::new(26, |i: int| 0u32), plan, reads);
            &&& regs.len() == 26
            &&& forall|k: int|
                0 <= k < plan.len() ==> regs[#[trigger] plan[k].slot as int] == reads[k].data@[0] as u32
            &&& forall|s: int|
                0 <= s < 26 && (forall|k: int| 0 <= k < plan.len() ==> #[trigger] plan[k].slot != s)
                    ==> regs[s] == 0
        }),
{
    let zero = Seq::new(26, |i: int| 0u32);
    lemma_plan_slots(resources);
    lemma_applied_slots(zero, plan_of(resources), reads);
    let regs = applied(zero, plan_of(resources), reads);
    assert forall|s: int|
        0 <= s < 26 && (forall|k: int|
            0 <= k < plan_of(resources).len() ==> #[trigger] plan_of(resources)[k].slot != s)
            implies regs[s] == 0 by {
        assert(zero[s] == 0);
    }
}

proof fn lemma_plan_slots(rs: Seq<ResourceInfo>)
    ensures
        forall|k: int| 0 <= k < plan_of(rs).len() ==> #[trigger] plan_of(rs)[k].slot < 26,
    decreases rs.len(),
{
    if rs.len() > 0 {
        lemma_plan_slots(rs.drop_last());
        let prev = plan_of(rs.drop_last());
        let name = text(&rs.last().name);
        if let Some(n) = numbered(name, 82u8, 15) {
            assert(n <= 15);
        }
        assert forall|k: int| 0 <= k < plan_of(rs).len() implies #[trigger] plan_of(rs)[k].slot
            < 26 by {
            if k < prev.len() {
                assert(plan_of(rs)[k] == prev[k]);
            }
        }
    }
}

proof fn lemma_applied_slots(regs: Seq<u32>, plan: Seq<SlotRead>, reads: Seq<ResourceRead>)
    requires
        distinct_slots(plan),
        reads.len() >= plan.len(),
        forall|k: int| 0 <= k < reads.len() ==> (#[trigger] reads[k]).data@.len() > 0,
        forall|k: int| 0 <= k < plan.len() ==> #[trigger] plan[k].slot < regs.len(),
    ensures
        applied(regs, plan, reads).len() == regs.len(),
        forall|k: int|
            0 <= k < plan.len() ==> applied(regs, plan, reads)[#[trigger] plan[k].slot as int]
                == reads[k].data@[0] as u32,
        forall|s: int|
            0 <= s < regs.len() && (forall|k: int| 0 <= k < plan.len() ==> #[trigger] plan[k].slot
                != s) ==> applied(regs, plan, reads)[s] == regs[s],
    decreases plan.len(),
{
    lemma_applied_len(regs, plan, reads);
    if plan.len() > 0 {
        let init = plan.drop_last();
        let last = plan.len() - 1;
        assert(reads[last].data@.len() > 0);
        assert forall|k: int| 0 <= k < init.len() implies #[trigger] init[k].slot < regs.len() by {
            assert(init[k] == plan[k]);
        }
        assert(distinct_slots(init)) by {
            assert forall|a: int, b: int| 0 <= a < b < init.len() implies init[a].slot
                != init[b].slot by {
                assert(init[a] == plan[a]);
                assert(init[b] == plan[b]);
            }
        }
        lemma_applied_slots(regs, init, reads);
        lemma_applied_len(regs, init, reads);
        assert forall|k: int| 0 <= k < plan.len() implies applied(regs, plan, reads)[
            #[trigger] plan[k].slot as int] == reads[k].data@[0] as u32 by {
            if k < last {
                assert(init[k] == plan[k]);
                assert(plan[k].slot != plan[last].slot);
            }
        }
        assert forall|s: int|
            0 <= s < regs.len() && (forall|k: int| 0 <= k < plan.len() ==> #[trigger] plan[k].slot
                != s) implies applied(regs, plan, reads)[s] == regs[s] by {
            assert(plan[last].slot != s);
            assert forall|k: int| 0 <= k < init.len() implies #[trigger] init[k].slot != s by {
                assert(init[k] == plan[k]);
            }
        }
    }
}

} // verus!
