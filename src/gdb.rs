//! The decisions of the GDB stub that both architectures share: the tables
//! of installed breakpoints and watchpoints, the resume state machine, the
//! mapping of watchpoint hits to stop reasons, monitor commands and
//! memory read-out.
use std::collections::BTreeMap;
use vstd::prelude::*;

pub mod a64;
pub mod t32;

verus! {

/// The access that a watchpoint fires on.
#[derive(Debug, Clone, Copy, PartialEq, Eq, Structural)]
pub enum WatchKind {
    Write,
    Read,
    ReadWrite,
}

/// Why a resumed target stopped.
#[derive(Debug, Clone, Copy, PartialEq, Eq, Structural)]
pub enum StopReason {
    /// The single step is done.
    DoneStep,
    /// A breakpoint, or a stop whose cause is not known.
    HwBreak,
    /// A watchpoint fired at `addr`.
    Watch { kind: WatchKind, addr: u64 },
    /// The debugger asked to stop.
    GdbInterrupt,
}

/// The payload of a watchpoint hit event: access kind, address and size.
#[derive(Debug, Clone)]
pub struct WatchTrigger {
    pub kind: String,
    pub addr: u64,
    pub size: u64,
}

/// The UTF-8 bytes of a string.
pub open spec fn text(s: &String) -> Seq<u8> {
    vstd::utf8::encode_utf8(s@)
}

/// The bytes of `s`.
pub fn string_bytes(s: &String) -> (r: &[u8])
    ensures
        r@ == text(s),
{
    s.as_str().as_bytes()
}

/// The access kind that an event spells `r`, `w` or `rw`.
pub open spec fn watch_kind_of(k: Seq<u8>) -> Option<WatchKind> {
    if k == seq![114u8] {
        Some(WatchKind::Read)
    } else if k == seq![119u8] {
        Some(WatchKind::Write)
    } else if k == seq![114u8, 119u8] {
        Some(WatchKind::ReadWrite)
    } else {
        None
    }
}

/// Reads an access kind: `r`, `w` or `rw`.
pub fn parse_watch_kind(k: &[u8]) -> (r: Option<WatchKind>)
    ensures
        r == watch_kind_of(k@),
{
    if k.len() == 1 && k[0] == 114 {
        assert(k@ =~= seq![114u8]);
        Some(WatchKind::Read)
    } else if k.len() == 1 && k[0] == 119 {
        assert(k@ =~= seq![119u8]);
        Some(WatchKind::Write)
    } else if k.len() == 2 && k[0] == 114 && k[1] == 119 {
        assert(k@ =~= seq![114u8, 119u8]);
        Some(WatchKind::ReadWrite)
    } else {
        assert(k@ != seq![114u8]);
        assert(k@ != seq![119u8]);
        assert(k@ != seq![114u8, 119u8]);
        None
    }
}

/// How the simulator spells an access kind.
pub open spec fn kind_text(kind: WatchKind) -> Seq<char> {
    match kind {
        WatchKind::Read => seq!['r'],
        WatchKind::Write => seq!['w'],
        WatchKind::ReadWrite => seq!['r', 'w'],
    }
}

/// The access kind as the simulator's `rwMode` parameter spells it.
pub fn kind_to_str(kind: WatchKind) -> (r: String)
    ensures
        r@ == kind_text(kind),
{
    let s: &str = match kind {
        WatchKind::Read => "r",
        WatchKind::Write => "w",
        WatchKind::ReadWrite => "rw",
    };
    proof {
        reveal_strlit("r");
        reveal_strlit("w");
        reveal_strlit("rw");
    }
    let r = s.to_owned();
    assert(r@ =~= kind_text(kind));
    r
}


/// Relies on `BTreeMap::range`: the entries from `lo` upwards come in
/// ascending key order, so the first one holds the smallest key at or above
/// `lo`.
#[verifier::external_body]
fn first_key_from(m: &BTreeMap<u64, Vec<u64>>, lo: u64) -> (r: Option<u64>)
    ensures
        match r {
            Some(k) => {
                &&& m@.contains_key(k)
                &&& lo <= k
                &&& forall|j: u64| #[trigger] m@.contains_key(j) && lo <= j ==> k <= j
            },
            None => forall|j: u64| #[trigger] m@.contains_key(j) ==> j < lo,
        },
{
    m.range(lo..).next().map(|(k, _)| *k)
}

/// `k` lies in the `size` bytes from `addr` on.
pub open spec fn in_window(k: u64, addr: u64, size: u64) -> bool {
    addr <= k && k < addr + size
}

/// `k` is the smallest of `keys` in the window.
pub open spec fn is_first_in_window(keys: Set<u64>, k: u64, addr: u64, size: u64) -> bool {
    &&& keys.contains(k)
    &&& in_window(k, addr, size)
    &&& forall|j: u64| #[trigger] keys.contains(j) && in_window(j, addr, size) ==> k <= j
}

/// The address reported for a hit of `size` bytes at `addr`: the smallest
/// watched address in that window, or `addr` when none lies there.
pub open spec fn watch_addr(keys: Set<u64>, addr: u64, size: u64) -> u64 {
    if exists|k: u64| is_first_in_window(keys, k, addr, size) {
        choose|k: u64| is_first_in_window(keys, k, addr, size)
    } else {
        addr
    }
}

/// Simulator breakpoint ids installed for each guest address, one per
/// address space that took the breakpoint, in key order.
pub struct AddressTable {
    entries: BTreeMap<u64, Vec<u64>>,
}

/// What `add` has to do for an address.
pub enum AddPlan {
    /// The address is already covered: report success at once.
    AlreadySet,
    /// Try to install in each of these address spaces.
    Install(Vec<u64>),
}

impl AddressTable {
    /// The installed ids of each address.
    pub closed spec fn view(&self) -> Map<u64, Seq<u64>> {
        self.entries@.map_values(|v: Vec<u64>| v@)
    }

    /// No address is kept without an id.
    pub open spec fn wf(&self) -> bool {
        forall|a: u64| #[trigger] self@.contains_key(a) ==> self@[a].len() > 0
    }

    /// An empty table.
    pub fn new() -> (r: AddressTable)
        ensures
            r.wf(),
            r@ == Map::<u64, Seq<u64>>::empty(),
    {
        let r = AddressTable { entries: BTreeMap::new() };
        assert(r@ =~= Map::<u64, Seq<u64>>::empty());
        r
    }

    /// Whether `addr` has an entry.
    pub fn contains(&self, addr: u64) -> (r: bool)
        ensures
            r == self@.contains_key(addr),
    {
        self.entries.contains_key(&addr)
    }

    /// Nothing to install when `addr` is covered; else one attempt per
    /// address space, in the order given.
    pub fn plan_add(&self, addr: u64, spaces: &Vec<u64>) -> (r: AddPlan)
        ensures
            self@.contains_key(addr) ==> r is AlreadySet,
            !self@.contains_key(addr) ==> (r matches AddPlan::Install(v) && v@ == spaces@),
    {
        if self.contains(addr) {
            AddPlan::AlreadySet
        } else {
            AddPlan::Install(spaces.clone())
        }
    }

    /// Records the ids that the attempts installed. An empty set is a
    /// failure: the table is left as it was and the result is `false`.
    pub fn finish_add(&mut self, addr: u64, installed: Vec<u64>) -> (r: bool)
        requires
            old(self).wf(),
        ensures
            final(self).wf(),
            r == (installed@.len() > 0),
            r ==> final(self)@ == old(self)@.insert(addr, installed@),
            !r ==> final(self)@ == old(self)@,
    {
        if installed.len() == 0 {
            return false;
        }
        let ghost ids = installed@;
        self.entries.insert(addr, installed);
        assert(self@ =~= old(self)@.insert(addr, ids));
        true
    }

    /// The ids to delete for `addr`; `None` when it has no entry, which
    /// counts as removed.
    pub fn plan_remove(&self, addr: u64) -> (r: Option<Vec<u64>>)
        ensures
            self@.contains_key(addr) ==> (r matches Some(v) && v@ == self@[addr]),
            !self@.contains_key(addr) ==> r is None,
    {
        match self.entries.get(&addr) {
            Some(v) => Some(v.clone()),
            None => None,
        }
    }

    /// Ends a removal: when every deletion succeeded the entry goes and the
    /// result is `true`; otherwise the entry stays and the result is `false`.
    pub fn finish_remove(&mut self, addr: u64, all_deleted: bool) -> (r: bool)
        requires
            old(self).wf(),
        ensures
            final(self).wf(),
            r == all_deleted,
            r ==> final(self)@ == old(self)@.remove(addr),
            !r ==> final(self)@ == old(self)@,
    {
        if !all_deleted {
            return false;
        }
        self.entries.remove(&addr);
        assert(self@ =~= old(self)@.remove(addr));
        true
    }

    /// The address to report for a hit of `size` bytes at `addr`: the
    /// smallest address of the table in that window, or `addr` itself.
    pub fn resolve_watch(&self, addr: u64, size: u64) -> (r: u64)
        ensures
            r == watch_addr(self@.dom(), addr, size),
    {
        match first_key_from(&self.entries, addr) {
            Some(k) => {
                assert(self@.dom() == self.entries@.dom());
                if k - addr < size {
                    assert(is_first_in_window(self@.dom(), k, addr, size));
                    let ghost c = choose|c: u64| is_first_in_window(self@.dom(), c, addr, size);
                    assert(c == k) by {
                        assert(self@.dom().contains(k));
                        assert(self@.dom().contains(c));
                    }
                    k
                } else {
                    assert forall|j: u64| !is_first_in_window(self@.dom(), j, addr, size) by {
                        if self@.dom().contains(j) && in_window(j, addr, size) {
                            assert(self.entries@.contains_key(j));
                        }
                    }
                    addr
                }
            },
            None => {
                assert forall|j: u64| !is_first_in_window(self@.dom(), j, addr, size) by {
                    if self@.dom().contains(j) {
                        assert(self.entries@.contains_key(j));
                    }
                }
                addr
            },
        }
    }
}

/// Adding and removing are idempotent. Once an add has installed ids for
/// `addr`, a second add finds the address covered, so it succeeds without a
/// call to the simulator; the removal that follows deletes exactly those
/// ids, and once it has succeeded a second removal finds nothing to delete.
pub proof fn lemma_add_remove_idempotent(
    before: Map<u64, Seq<u64>>,
    addr: u64,
    installed: Seq<u64>,
)
    requires
        installed.len() > 0,
    ensures
        before.insert(addr, installed).contains_key(addr),
        before.insert(addr, installed)[addr] == installed,
        !before.insert(addr, installed).remove(addr).contains_key(addr),
        before.insert(addr, installed).remove(addr) == before.remove(addr),
{
    assert(before.insert(addr, installed).remove(addr) =~= before.remove(addr));
}

/// The stop reason of a `continue` that ended with `trigger` taken from the
/// event slot: no trigger, or one of an unknown access kind, is a plain
/// breakpoint; else a watchpoint hit at the resolved address.
pub open spec fn stop_reason_of(
    trigger: Option<WatchTrigger>,
    watchpoints: Map<u64, Seq<u64>>,
) -> StopReason {
    match trigger {
        None => StopReason::HwBreak,
        Some(t) => match watch_kind_of(text(&t.kind)) {
            None => StopReason::HwBreak,
            Some(kind) => StopReason::Watch {
                kind,
                addr: watch_addr(watchpoints.dom(), t.addr, t.size),
            },
        },
    }
}

/// The stop reason of a `continue` that ended with `trigger` taken from the
/// event slot.
pub fn stop_reason_for(trigger: &Option<WatchTrigger>, watchpoints: &AddressTable) -> (r:
    StopReason)
    ensures
        r == stop_reason_of(*trigger, watchpoints@),
{
    match trigger {
        None => StopReason::HwBreak,
        Some(t) => match parse_watch_kind(string_bytes(&t.kind)) {
            None => StopReason::HwBreak,
            Some(kind) => StopReason::Watch { kind, addr: watchpoints.resolve_watch(t.addr, t.size) },
        },
    }
}


/// What the debugger asks a resume to do.
#[derive(Debug, Clone, Copy, PartialEq, Eq, Structural)]
pub enum ResumeAction {
    Continue,
    Step,
    ContinueWithSignal(u8),
    StepWithSignal(u8),
}

/// Where a resume stands.
#[derive(Debug, Clone, Copy, PartialEq, Eq, Structural)]
pub enum ResumePhase {
    /// Nothing done yet.
    Idle,
    /// Waiting for the one-instruction step set-up.
    SettingUp,
    /// Waiting for the simulation to start running.
    Starting,
    /// Waiting for the running flag of simulation time.
    Polling,
    /// Waiting for the debugger's interrupt flag.
    Checking,
    /// Waiting for the simulation to stop after an interrupt.
    Stopping,
    /// Waiting for the content of the watchpoint event slot.
    Collecting,
    /// Over: nothing more is done.
    Finished,
}

/// What the driver of a resume reports back.
#[derive(Debug, Clone)]
pub enum ResumeEvent {
    /// The resume begins.
    Begin,
    /// The call that the last command asked for succeeded.
    Done,
    /// Simulation time says whether it is still running.
    Polled { running: bool },
    /// Whether the debugger's interrupt flag is raised.
    Interrupt { pending: bool },
    /// What the watchpoint event slot held; taking it empties it.
    Trigger(Option<WatchTrigger>),
}

/// What the driver of a resume is to do next.
#[derive(Debug, Clone, Copy, PartialEq, Eq, Structural)]
pub enum ResumeCommand {
    /// Set up a one-instruction step.
    SetupStep,
    /// Start simulation time.
    Run,
    /// Ask simulation time whether it runs.
    Poll,
    /// Check the debugger's interrupt flag.
    CheckInterrupt,
    /// Wait one poll interval, then ask again.
    SleepThenPoll,
    /// Stop simulation time.
    Stop,
    /// Take what the watchpoint event slot holds.
    TakeTrigger,
    /// The resume ends with this stop reason.
    Finish(StopReason),
    /// The resume fails: an action this target does not take, or an event
    /// out of turn.
    Fail,
}

/// One move of the resume state machine: from `phase`, for a resume of
/// `action`, on `event`, the next phase and command.
pub open spec fn resume_step(
    phase: ResumePhase,
    action: ResumeAction,
    event: ResumeEvent,
    watchpoints: Map<u64, Seq<u64>>,
) -> (ResumePhase, ResumeCommand) {
    match (phase, event) {
        (ResumePhase::Idle, ResumeEvent::Begin) => match action {
            ResumeAction::Step => (ResumePhase::SettingUp, ResumeCommand::SetupStep),
            ResumeAction::Continue => (ResumePhase::Starting, ResumeCommand::Run),
            _ => (ResumePhase::Finished, ResumeCommand::Fail),
        },
        (ResumePhase::SettingUp, ResumeEvent::Done) => (ResumePhase::Starting, ResumeCommand::Run),
        (ResumePhase::Starting, ResumeEvent::Done) => (ResumePhase::Polling, ResumeCommand::Poll),
        (ResumePhase::Polling, ResumeEvent::Polled { running }) => if running {
            (ResumePhase::Checking, ResumeCommand::CheckInterrupt)
        } else if action == ResumeAction::Step {
            (ResumePhase::Finished, ResumeCommand::Finish(StopReason::DoneStep))
        } else {
            (ResumePhase::Collecting, ResumeCommand::TakeTrigger)
        },
        (ResumePhase::Checking, ResumeEvent::Interrupt { pending }) => if pending {
            (ResumePhase::Stopping, ResumeCommand::Stop)
        } else {
            (ResumePhase::Polling, ResumeCommand::SleepThenPoll)
        },
        (ResumePhase::Stopping, ResumeEvent::Done) => (
            ResumePhase::Finished,
            ResumeCommand::Finish(StopReason::GdbInterrupt),
        ),
        (ResumePhase::Collecting, ResumeEvent::Trigger(t)) => (
            ResumePhase::Finished,
            ResumeCommand::Finish(stop_reason_of(t, watchpoints)),
        ),
        _ => (ResumePhase::Finished, ResumeCommand::Fail),
    }
}

/// One resume of the target: a `step` or a `continue`, driven by events.
pub struct Resume {
    pub action: ResumeAction,
    pub phase: ResumePhase,
}

impl Resume {
    /// A resume of `action` that has not begun.
    pub fn new(action: ResumeAction) -> (r: Resume)
        ensures
            r.action == action,
            r.phase == ResumePhase::Idle,
    {
        Resume { action, phase: ResumePhase::Idle }
    }

    /// Takes `event` into account and says what to do next.
    pub fn next(&mut self, event: ResumeEvent, watchpoints: &AddressTable) -> (c: ResumeCommand)
        ensures
            final(self).action == old(self).action,
            (final(self).phase, c) == resume_step(
                old(self).phase,
                old(self).action,
                event,
                watchpoints@,
            ),
    {
        let step = self.action == ResumeAction::Step;
        let (phase, command) = match (self.phase, event) {
            (ResumePhase::Idle, ResumeEvent::Begin) => match self.action {
                ResumeAction::Step => (ResumePhase::SettingUp, ResumeCommand::SetupStep),
                ResumeAction::Continue => (ResumePhase::Starting, ResumeCommand::Run),
                _ => (ResumePhase::Finished, ResumeCommand::Fail),
            },
            (ResumePhase::SettingUp, ResumeEvent::Done) => (
                ResumePhase::Starting,
                ResumeCommand::Run,
            ),
            (ResumePhase::Starting, ResumeEvent::Done) => (
                ResumePhase::Polling,
                ResumeCommand::Poll,
            ),
            (ResumePhase::Polling, ResumeEvent::Polled { running }) => if running {
                (ResumePhase::Checking, ResumeCommand::CheckInterrupt)
            } else if step {
                (ResumePhase::Finished, ResumeCommand::Finish(StopReason::DoneStep))
            } else {
                (ResumePhase::Collecting, ResumeCommand::TakeTrigger)
            },
            (ResumePhase::Checking, ResumeEvent::Interrupt { pending }) => if pending {
                (ResumePhase::Stopping, ResumeCommand::Stop)
            } else {
                (ResumePhase::Polling, ResumeCommand::SleepThenPoll)
            },
            (ResumePhase::Stopping, ResumeEvent::Done) => (
                ResumePhase::Finished,
                ResumeCommand::Finish(StopReason::GdbInterrupt),
            ),
            (ResumePhase::Collecting, ResumeEvent::Trigger(t)) => (
                ResumePhase::Finished,
                ResumeCommand::Finish(stop_reason_for(&t, watchpoints)),
            ),
            _ => (ResumePhase::Finished, ResumeCommand::Fail),
        };
        self.phase = phase;
        command
    }
}

/// An interrupt raised while a resume runs stops simulation time exactly
/// once and ends the resume with `GdbInterrupt`: the raised flag leads to a
/// single `Stop`, its completion to `Finish(GdbInterrupt)`, and a finished
/// resume never asks for anything again.
pub proof fn lemma_interrupt_stops_once(
    action: ResumeAction,
    watchpoints: Map<u64, Seq<u64>>,
    later: ResumeEvent,
)
    ensures
        resume_step(
            ResumePhase::Polling,
            action,
            ResumeEvent::Polled { running: true },
            watchpoints,
        ) == (ResumePhase::Checking, ResumeCommand::CheckInterrupt),
        resume_step(
            ResumePhase::Checking,
            action,
            ResumeEvent::Interrupt { pending: true },
            watchpoints,
        ) == (ResumePhase::Stopping, ResumeCommand::Stop),
        resume_step(ResumePhase::Stopping, action, ResumeEvent::Done, watchpoints) == (
            ResumePhase::Finished,
            ResumeCommand::Finish(StopReason::GdbInterrupt),
        ),
        resume_step(ResumePhase::Finished, action, later, watchpoints) == (
            ResumePhase::Finished,
            ResumeCommand::Fail,
        ),
{
}


/// Byte `k` (0 to 7), least significant first, of `w`.
pub open spec fn le_byte(w: u64, k: int) -> u8 {
    ((w >> ((8 * k) as u64)) & 0xff) as u8
}

/// The first `len` bytes of `words` laid out little-endian, zeros after
/// the last word.
pub open spec fn memory_image(words: Seq<u64>, len: nat) -> Seq<u8> {
    Seq::new(
        len,
        |i: int|
            if i < words.len() * 8 {
                le_byte(words[i / 8], i % 8)
            } else {
                0u8
            },
    )
}

/// The bytes of a memory read: the words that the simulator returned, each
/// little-endian, cut or padded with zeros to the `len` bytes asked for.
pub fn memory_bytes(words: &Vec<u64>, len: usize) -> (r: Vec<u8>)
    ensures
        r@ == memory_image(words@, len as nat),
{
    let mut out: Vec<u8> = Vec::new();
    let mut i: usize = 0;
    while i < len
        invariant
            0 <= i <= len,
            out@.len() == i,
            forall|j: int| 0 <= j < i ==> #[trigger] out@[j] == memory_image(words@, len as nat)[j],
        decreases len - i,
    {
        let w = i / 8;
        if w < words.len() {
            let shift: u64 = (8 * (i % 8)) as u64;
            let b: u8 = ((words[w] >> shift) & 0xff) as u8;
            out.push(b);
        } else {
            proof {
                assert(i as int / 8 >= words@.len());
                assert(i as int >= words@.len() * 8);
            }
            out.push(0);
        }
        i = i + 1;
    }
    assert(out@ =~= memory_image(words@, len as nat));
    out
}

/// What a monitor command asks for.
#[derive(Debug, Clone)]
pub enum MonitorAction {
    /// Reset the simulation and wait until it is instantiated again.
    Reset,
    /// Write this line to the debugger's console.
    Unsupported(Vec<u8>),
}

/// `reset`.
pub open spec fn reset_command() -> Seq<u8> {
    seq![114u8, 101u8, 115u8, 101u8, 116u8]
}

/// The console line for a command that is not supported.
pub open spec fn unsupported_line(cmd: Seq<u8>) -> Seq<u8> {
    seq![77u8, 111u8, 110u8, 105u8, 116u8, 111u8, 114u8, 32u8, 99u8, 111u8, 109u8, 109u8, 97u8, 110u8, 100u8, 32u8] + cmd + seq![32u8, 110u8, 111u8, 116u8, 32u8, 115u8, 117u8, 112u8, 112u8, 111u8, 114u8, 116u8, 101u8, 100u8, 10u8]
}

/// The action for a monitor command already decoded to text: `reset`
/// resets, anything else is answered with a line on the console.
pub fn monitor_action_for(cmd: &str) -> (r: MonitorAction)
    ensures
        vstd::utf8::encode_utf8(cmd@) == reset_command() <==> r is Reset,
        r matches MonitorAction::Unsupported(line) ==> line@ == unsupported_line(vstd::utf8::encode_utf8(cmd@)),
{
    let b = cmd.as_bytes();
    let reset: Vec<u8> = vec![114u8, 101u8, 115u8, 101u8, 116u8];
    assert(reset@ =~= reset_command());
    if crate::wire::bytes_eq(b, reset.as_slice()) {
        return MonitorAction::Reset;
    }
    let mut line: Vec<u8> = vec![77u8, 111u8, 110u8, 105u8, 116u8, 111u8, 114u8, 32u8, 99u8, 111u8, 109u8, 109u8, 97u8, 110u8, 100u8, 32u8];
    let ghost head = line@;
    assert(head =~= seq![77u8, 111u8, 110u8, 105u8, 116u8, 111u8, 114u8, 32u8, 99u8, 111u8, 109u8, 109u8, 97u8, 110u8, 100u8, 32u8]);
    let mut i: usize = 0;
    while i < b.len()
        invariant
            0 <= i <= b@.len(),
            line@ == head + b@.take(i as int),
        decreases b@.len() - i,
    {
        line.push(b[i]);
        i = i + 1;
        assert(line@ =~= head + b@.take(i as int));
    }
    assert(b@.take(b@.len() as int) =~= b@);
    let tail: Vec<u8> = vec![32u8, 110u8, 111u8, 116u8, 32u8, 115u8, 117u8, 112u8, 112u8, 111u8, 114u8, 116u8, 101u8, 100u8, 10u8];
    let mut j: usize = 0;
    let ghost mid = line@;
    while j < tail.len()
        invariant
            0 <= j <= tail@.len(),
            tail@ == seq![32u8, 110u8, 111u8, 116u8, 32u8, 115u8, 117u8, 112u8, 112u8, 111u8, 114u8, 116u8, 101u8, 100u8, 10u8],
            line@ == mid + tail@.take(j as int),
        decreases tail@.len() - j,
    {
        line.push(tail[j]);
        j = j + 1;
        assert(line@ =~= mid + tail@.take(j as int));
    }
    assert(tail@.take(tail@.len() as int) =~= tail@);
    assert(line@ =~= unsupported_line(vstd::utf8::encode_utf8(cmd@)));
    MonitorAction::Unsupported(line)
}

/// The text that `String::from_utf8_lossy` makes of some bytes.
pub uninterp spec fn utf8_lossy(b: Seq<u8>) -> Seq<char>;

/// Relies on `String::from_utf8_lossy`: the text depends on the bytes alone.
#[verifier::external_body]
fn lossy_text(b: &[u8]) -> (r: String)
    ensures
        r@ == utf8_lossy(b@),
{
    String::from_utf8_lossy(b).into_owned()
}

/// The action for the raw bytes of a monitor command, read as UTF-8 with
/// invalid sequences replaced.
pub fn monitor_action(cmd: &[u8]) -> (r: MonitorAction)
    ensures
        vstd::utf8::encode_utf8(utf8_lossy(cmd@)) == reset_command() <==> r is Reset,
        r matches MonitorAction::Unsupported(line) ==> line@ == unsupported_line(
            vstd::utf8::encode_utf8(utf8_lossy(cmd@)),
        ),
{
    let t = lossy_text(cmd);
    monitor_action_for(t.as_str())
}


/// One register read: the resource to read and the slot of the register
/// file that takes its first word.
#[derive(Debug, Clone, Copy, PartialEq, Eq, Structural)]
pub struct SlotRead {
    pub resource: u64,
    pub slot: usize,
}

/// Bytes `at` to `at + 7` of `b` read as a little-endian word.
pub open spec fn le_u64(b: Seq<u8>, at: int) -> u64 {
    (b[at] as u64) | ((b[at + 1] as u64) << 8u64) | ((b[at + 2] as u64) << 16u64) | ((b[at
        + 3] as u64) << 24u64) | ((b[at + 4] as u64) << 32u64) | ((b[at + 5] as u64) << 40u64)
        | ((b[at + 6] as u64) << 48u64) | ((b[at + 7] as u64) << 56u64)
}

/// Bytes `at` to `at + 3` of `b` read as a little-endian word.
pub open spec fn le_u32(b: Seq<u8>, at: int) -> u32 {
    (b[at] as u32) | ((b[at + 1] as u32) << 8u32) | ((b[at + 2] as u32) << 16u32) | ((b[at
        + 3] as u32) << 24u32)
}

/// Reads the little-endian word at `at`.
pub fn read_le_u64(b: &[u8], at: usize) -> (r: u64)
    requires
        at + 8 <= b@.len(),
    ensures
        r == le_u64(b@, at as int),
{
    (b[at] as u64) | ((b[at + 1] as u64) << 8u64) | ((b[at + 2] as u64) << 16u64) | ((b[at
        + 3] as u64) << 24u64) | ((b[at + 4] as u64) << 32u64) | ((b[at + 5] as u64) << 40u64)
        | ((b[at + 6] as u64) << 48u64) | ((b[at + 7] as u64) << 56u64)
}

/// Reads the little-endian word at `at`.
pub fn read_le_u32(b: &[u8], at: usize) -> (r: u32)
    requires
        at + 4 <= b@.len(),
    ensures
        r == le_u32(b@, at as int),
{
    (b[at] as u32) | ((b[at + 1] as u32) << 8u32) | ((b[at + 2] as u32) << 16u32) | ((b[at
        + 3] as u32) << 24u32)
}

} // verus!
