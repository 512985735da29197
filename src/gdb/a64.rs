//! The ARMv8-A register file: 98 slots of 64 bits, `X0`..`X30`, `SP`, `PC`
//! and `XPSR` among them.
use crate::gdb::{le_u64, memory_bytes, memory_image, read_le_u64, string_bytes, text, SlotRead};
use crate::resource::{ResourceInfo, ResourceRead};
use crate::wire::{numbered, parse_numbered};
use vstd::prelude::*;

verus! {

/// The number of register slots.
pub const SLOTS: usize = 98;

/// The register file as GDB lays it out.
#[derive(Debug, Clone, PartialEq)]
pub struct GuestState {
    pub regs: Vec<u64>,
}

impl Default for GuestState {
    /// All registers zero.
    fn default() -> (r: GuestState)
        ensures
            r.regs@ == Seq::new(98, |i: int| 0u64),
    {
        let mut regs: Vec<u64> = Vec::new();
        let mut i: usize = 0;
        while i < SLOTS
            invariant
                0 <= i <= SLOTS,
                regs@ == Seq::new(i as nat, |k: int| 0u64),
            decreases SLOTS - i,
        {
            regs.push(0);
            i = i + 1;
            assert(regs@ =~= Seq::new(i as nat, |k: int| 0u64));
        }
        GuestState { regs }
    }
}

impl GuestState {
    /// All 98 slots are there.
    pub open spec fn wf(&self) -> bool {
        self.regs@.len() == 98
    }

    /// The program counter, slot 32.
    pub fn pc(&self) -> (r: u64)
        requires
            self.wf(),
        ensures
            r == self.regs@[32],
    {
        self.regs[32]
    }

    /// The bytes GDB expects: each slot little-endian, then four zero bytes.
    pub fn gdb_serialize(&self) -> (r: Vec<u8>)
        requires
            self.wf(),
        ensures
            r@ == memory_image(self.regs@, 98 * 8 + 4),
    {
        memory_bytes(&self.regs, SLOTS * 8 + 4)
    }

    /// Takes the registers from GDB's bytes, eight per slot in order. Fails
    /// when the length is not a multiple of eight, leaving the file as it
    /// was, or when the bytes run out before the last slot, after taking
    /// the slots they cover.
    pub fn gdb_deserialize(&mut self, bytes: &[u8]) -> (r: Result<(), ()>)
        requires
            old(self).wf(),
        ensures
            final(self).wf(),
            bytes@.len() % 8 != 0 ==> r is Err && final(self).regs@ == old(self).regs@,
            bytes@.len() % 8 == 0 ==> {
                &&& (r is Ok <==> bytes@.len() / 8 >= 98)
                &&& forall|j: int|
                    0 <= j < 98 ==> #[trigger] final(self).regs@[j] == if j < bytes@.len() / 8 {
                        le_u64(bytes@, 8 * j)
                    } else {
                        old(self).regs@[j]
                    }
            },
    {
        if bytes.len() % 8 != 0 {
            return Err(());
        }
        let n = bytes.len() / 8;
        let mut j: usize = 0;
        while j < SLOTS
            invariant
                0 <= j <= SLOTS,
                j <= n,
                n == bytes@.len() / 8,
                bytes@.len() % 8 == 0,
                self.regs@.len() == 98,
                forall|k: int|
                    0 <= k < 98 ==> #[trigger] self.regs@[k] == if k < j && k < n {
                        le_u64(bytes@, 8 * k)
                    } else {
                        old(self).regs@[k]
                    },
            decreases SLOTS - j,
        {
            if j >= n {
                return Err(());
            }
            let w = read_le_u64(bytes, 8 * j);
            self.regs.set(j, w);
            j = j + 1;
        }
        Ok(())
    }

    /// Stores the first word of each read in the slot of its plan entry;
    /// an empty read leaves its slot alone.
    pub fn apply_reads(&mut self, plan: &Vec<SlotRead>, reads: &Vec<ResourceRead>)
        requires
            old(self).wf(),
            plan@.len() == reads@.len(),
        ensures
            final(self).regs@ == applied(old(self).regs@, plan@, reads@),
    {
        let mut i: usize = 0;
        while i < plan.len()
            invariant
                0 <= i <= plan@.len(),
                plan@.len() == reads@.len(),
                self.regs@ == applied(old(self).regs@, plan@.take(i as int), reads@),
            decreases plan@.len() - i,
        {
            assert(plan@.take(i as int + 1).drop_last() =~= plan@.take(i as int));
            proof {
                lemma_applied_len(old(self).regs@, plan@.take(i as int), reads@);
            }
            let slot = plan[i].slot;
            if reads[i].data.len() > 0 && slot < self.regs.len() {
                self.regs.set(slot, reads[i].data[0]);
            }
            i = i + 1;
        }
        assert(plan@.take(plan@.len() as int) =~= plan@);
    }
}

/// The register file after storing, in order, the first word of each
/// non-empty read in the slot of its plan entry.
pub open spec fn applied(regs: Seq<u64>, plan: Seq<SlotRead>, reads: Seq<ResourceRead>) -> Seq<
    u64,
>
    decreases plan.len(),
{
    if plan.len() == 0 {
        regs
    } else {
        let prev = applied(regs, plan.drop_last(), reads);
        let k = plan.len() - 1;
        if reads[k].data@.len() > 0 && plan[k].slot < prev.len() {
            prev.update(plan[k].slot as int, reads[k].data@[0])
        } else {
            prev
        }
    }
}

proof fn lemma_applied_len(regs: Seq<u64>, plan: Seq<SlotRead>, reads: Seq<ResourceRead>)
    ensures
        applied(regs, plan, reads).len() == regs.len(),
    decreases plan.len(),
{
    if plan.len() > 0 {
        lemma_applied_len(regs, plan.drop_last(), reads);
    }
}


/// A register as GDB numbers it.
#[derive(Debug, Clone, Copy, PartialEq, Eq, Structural)]
pub enum Register {
    X(u8),
    SP,
    PC,
    XPSR,
}

impl Register {
    /// The register of GDB's number `id`, with a size hint of zero.
    pub fn from_raw_id(id: usize) -> (r: Option<(Register, usize)>)
        ensures
            id < 31 ==> r == Some((Register::X(id as u8), 0usize)),
            id == 31 ==> r == Some((Register::SP, 0usize)),
            id == 32 ==> r == Some((Register::PC, 0usize)),
            id == 33 ==> r == Some((Register::XPSR, 0usize)),
            id > 33 ==> r is None,
    {
        if id < 31 {
            Some((Register::X(id as u8), 0))
        } else if id == 31 {
            Some((Register::SP, 0))
        } else if id == 32 {
            Some((Register::PC, 0))
        } else if id == 33 {
            Some((Register::XPSR, 0))
        } else {
            None
        }
    }
}

/// The slot of the resource named `name`: `X0`..`X30` to 0..30, `SP` to
/// 31, `PC` to 32, `XPSR` and `CPSR` to 33.
pub open spec fn slot_of_name(name: Seq<u8>) -> Option<usize> {
    if name == seq![80u8, 67u8] {
        Some(32)
    } else if name == seq![83u8, 80u8] {
        Some(31)
    } else if name == seq![88u8, 80u8, 83u8, 82u8] || name == seq![67u8, 80u8, 83u8, 82u8] {
        Some(33)
    } else {
        match numbered(name, 88u8, 30) {
            Some(n) => Some(n as usize),
            None => None,
        }
    }
}

/// The slot of the resource named `name`, if it is a register of the file.
pub fn register_slot(name: &[u8]) -> (r: Option<usize>)
    ensures
        r == slot_of_name(name@),
{
    let pc: Vec<u8> = vec![80u8, 67u8];
    let sp: Vec<u8> = vec![83u8, 80u8];
    let xpsr: Vec<u8> = vec![88u8, 80u8, 83u8, 82u8];
    let cpsr: Vec<u8> = vec![67u8, 80u8, 83u8, 82u8];
    assert(pc@ =~= seq![80u8, 67u8]);
    assert(sp@ =~= seq![83u8, 80u8]);
    assert(xpsr@ =~= seq![88u8, 80u8, 83u8, 82u8]);
    assert(cpsr@ =~= seq![67u8, 80u8, 83u8, 82u8]);
    if crate::wire::bytes_eq(name, pc.as_slice()) {
        Some(32)
    } else if crate::wire::bytes_eq(name, sp.as_slice()) {
        Some(31)
    } else if crate::wire::bytes_eq(name, xpsr.as_slice()) || crate::wire::bytes_eq(
        name,
        cpsr.as_slice(),
    ) {
        Some(33)
    } else {
        match parse_numbered(name, 88, 30) {
            Some(n) => Some(n as usize),
            None => None,
        }
    }
}

/// The reads that fill the register file: one per resource whose name
/// maps to a slot, in the order of the resources.
pub open spec fn plan_of(rs: Seq<ResourceInfo>) -> Seq<SlotRead>
    decreases rs.len(),
{
    if rs.len() == 0 {
        Seq::empty()
    } else {
        let prev = plan_of(rs.drop_last());
        match slot_of_name(text(&rs.last().name)) {
            Some(slot) => prev.push(SlotRead { resource: rs.last().id, slot }),
            None => prev,
        }
    }
}

/// The reads that fill the register file from `resources`.
pub fn register_plan(resources: &Vec<ResourceInfo>) -> (r: Vec<SlotRead>)
    ensures
        r@ == plan_of(resources@),
{
    let mut out: Vec<SlotRead> = Vec::new();
    let mut i: usize = 0;
    while i < resources.len()
        invariant
            0 <= i <= resources@.len(),
            out@ == plan_of(resources@.take(i as int)),
        decreases resources@.len() - i,
    {
        assert(resources@.take(i as int + 1).drop_last() =~= resources@.take(i as int));
        match register_slot(string_bytes(&resources[i].name)) {
            Some(slot) => {
                out.push(SlotRead { resource: resources[i].id, slot });
            },
            None => {},
        }
        i = i + 1;
    }
    assert(resources@.take(resources@.len() as int) =~= resources@);
    out
}

/// Each plan entry has a slot of its own.
pub open spec fn distinct_slots(plan: Seq<SlotRead>) -> bool {
    forall|a: int, b: int| 0 <= a < b < plan.len() ==> plan[a].slot != plan[b].slot
}

/// Register round trip: starting from a zeroed file, when every mapped
/// register reads back a word `v` first, the file holds `v` in that
/// register's slot and zero in every slot that no register maps to.
pub proof fn lemma_register_round_trip(resources: Seq<ResourceInfo>, reads: Seq<ResourceRead>)
    requires
        distinct_slots(plan_of(resources)),
        reads.len() == plan_of(resources).len(),
        forall|k: int| 0 <= k < reads.len() ==> (#[trigger] reads[k]).data@.len() > 0,
    ensures
        ({
            let plan = plan_of(resources);
            let regs = applied(Seq::new(98, |i: int| 0u64), plan, reads);
            &&& regs.len() == 98
            &&& forall|k: int|
                0 <= k < plan.len() ==> regs[#[trigger] plan[k].slot as int] == reads[k].data@[0]
            &&& forall|s: int|
                0 <= s < 98 && (forall|k: int| 0 <= k < plan.len() ==> #[trigger] plan[k].slot != s)
                    ==> regs[s] == 0
        }),
{
    let zero = Seq::new(98, |i: int| 0u64);
    lemma_plan_slots(resources);
    lemma_applied_slots(zero, plan_of(resources), reads);
    let regs = applied(zero, plan_of(resources), reads);
    assert forall|s: int|
        0 <= s < 98 && (forall|k: int|
            0 <= k < plan_of(resources).len() ==> #[trigger] plan_of(resources)[k].slot != s)
            implies regs[s] == 0 by {
        assert(zero[s] == 0);
    }
}

proof fn lemma_plan_slots(rs: Seq<ResourceInfo>)
    ensures
        forall|k: int| 0 <= k < plan_of(rs).len() ==> #[trigger] plan_of(rs)[k].slot < 98,
    decreases rs.len(),
{
    if rs.len() > 0 {
        lemma_plan_slots(rs.drop_last());
        let prev = plan_of(rs.drop_last());
        let name = text(&rs.last().name);
        if let Some(n) = numbered(name, 88u8, 30) {
            assert(n <= 30);
        }
        assert forall|k: int| 0 <= k < plan_of(rs).len() implies #[trigger] plan_of(rs)[k].slot
            < 98 by {
            if k < prev.len() {
                assert(plan_of(rs)[k] == prev[k]);
            }
        }
    }
}

proof fn lemma_applied_slots(regs: Seq<u64>, plan: Seq<SlotRead>, reads: Seq<ResourceRead>)
    requires
        distinct_slots(plan),
        reads.len() >= plan.len(),
        forall|k: int| 0 <= k < reads.len() ==> (#[trigger] reads[k]).data@.len() > 0,
        forall|k: int| 0 <= k < plan.len() ==> #[trigger] plan[k].slot < regs.len(),
    ensures
        applied(regs, plan, reads).len() == regs.len(),
        forall|k: int|
            0 <= k < plan.len() ==> applied(regs, plan, reads)[#[trigger] plan[k].slot as int]
                == reads[k].data@[0],
        forall|s: int|
            0 <= s < regs.len() && (forall|k: int| 0 <= k < plan.len() ==> #[trigger] plan[k].slot
                != s) ==> applied(regs, plan, reads)[s] == regs[s],
    decreases plan.len(),
{
    lemma_applied_len(regs, plan, reads);
    if plan.len() > 0 {
        let init = plan.drop_last();
        let last = plan.len() - 1;
        assert(reads[last].data@.len() > 0);
        assert forall|k: int| 0 <= k < init.len() implies #[trigger] init[k].slot < regs.len() by {
            assert(init[k] == plan[k]);
        }
        assert(distinct_slots(init)) by {
            assert forall|a: int, b: int| 0 <= a < b < init.len() implies init[a].slot
                != init[b].slot by {
                assert(init[a] == plan[a]);
                assert(init[b] == plan[b]);
            }
        }
        lemma_applied_slots(regs, init, reads);
        lemma_applied_len(regs, init, reads);
        assert forall|k: int| 0 <= k < plan.len() implies applied(regs, plan, reads)[
            #[trigger] plan[k].slot as int] == reads[k].data@[0] by {
            if k < last {
                assert(init[k] == plan[k]);
                assert(plan[k].slot != plan[last].slot);
            }
        }
        assert forall|s: int|
            0 <= s < regs.len() && (forall|k: int| 0 <= k < plan.len() ==> #[trigger] plan[k].slot
                != s) implies applied(regs, plan, reads)[s] == regs[s] by {
            assert(plan[last].slot != s);
            assert forall|k: int| 0 <= k < init.len() implies #[trigger] init[k].slot != s by {
                assert(init[k] == plan[k]);
            }
        }
    }
}

} // verus!
