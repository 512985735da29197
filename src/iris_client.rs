//! The bookkeeping of the RPC client: message ids, the set of responses a
//! caller waits for, and the table of event handlers.
//!
//! Reading and writing the channel and decoding JSON happen outside; each
//! decoded message is handed to [`Waiter::accept`], which says what to do
//! with it.
use vstd::prelude::*;

verus! {

/// The id of a request that was sent, to be waited for.
#[derive(Debug, Clone, Copy, PartialEq, Eq, Hash, Structural)]
pub struct MessageHandle {
    pub id: u64,
}

/// A request: a method name and its parameter object.
pub struct RpcReq<'a, S> {
    pub method: &'a str,
    pub params: &'a S,
}

/// The id of the message that `inst` sends as its `counter`-th.
pub open spec fn message_id(inst: u32, counter: u32) -> u64 {
    (inst as int * 0x1_0000_0000 + counter as int) as u64
}

/// Ids are never reused: two different (instance, counter) pairs give two
/// different message ids.
pub proof fn lemma_message_ids_distinct(i1: u32, c1: u32, i2: u32, c2: u32)
    requires
        i1 != i2 || c1 != c2,
    ensures
        message_id(i1, c1) != message_id(i2, c2),
{
    let a = i1 as int * 0x1_0000_0000 + c1 as int;
    let b = i2 as int * 0x1_0000_0000 + c2 as int;
    assert(a != b) by (nonlinear_arith)
        requires
            i1 != i2 || c1 != c2,
            0 <= c1 < 0x1_0000_0000,
            0 <= c2 < 0x1_0000_0000,
            a == i1 as int * 0x1_0000_0000 + c1 as int,
            b == i2 as int * 0x1_0000_0000 + c2 as int,
    {
        if i1 < i2 {
            assert(i1 as int * 0x1_0000_0000 + 0x1_0000_0000 <= i2 as int * 0x1_0000_0000);
        } else if i2 < i1 {
            assert(i2 as int * 0x1_0000_0000 + 0x1_0000_0000 <= i1 as int * 0x1_0000_0000);
        }
    }
    assert(0 <= a < 0x1_0000_0000_0000_0000) by (nonlinear_arith)
        requires
            a == i1 as int * 0x1_0000_0000 + c1 as int,
            0 <= c1 < 0x1_0000_0000,
            0 <= i1 < 0x1_0000_0000,
    ;
    assert(0 <= b < 0x1_0000_0000_0000_0000) by (nonlinear_arith)
        requires
            b == i2 as int * 0x1_0000_0000 + c2 as int,
            0 <= c2 < 0x1_0000_0000,
            0 <= i2 < 0x1_0000_0000,
    ;
}

/// Hands out message ids: the client's instance id in the high 32 bits, a
/// counter in the low 32 bits.
pub struct MessageIds {
    /// The instance id the server gave this client, once registered.
    pub inst_id: Option<u32>,
    /// The counter of the next message.
    pub current_msg_id: u32,
}

impl MessageIds {
    /// No instance id yet, counter at zero.
    pub fn new() -> (r: MessageIds)
        ensures
            r.inst_id == None::<u32>,
            r.current_msg_id == 0,
    {
        MessageIds { inst_id: None, current_msg_id: 0 }
    }

    /// Records the instance id that registration returned.
    pub fn set_instance(&mut self, id: u32)
        ensures
            final(self).inst_id == Some(id),
            final(self).current_msg_id == old(self).current_msg_id,
    {
        self.inst_id = Some(id);
    }

    /// The id of the next message, counter advanced; `None` once all 2^32
    /// counters of this instance are spent, since an id is never reused.
    pub fn next_handle(&mut self) -> (r: Option<MessageHandle>)
        ensures
            old(self).current_msg_id == u32::MAX <==> r.is_none(),
            r.is_none() ==> *final(self) == *old(self),
            r.is_some() ==> {
                &&& r.unwrap().id == message_id(
                    old(self).inst_id.unwrap_or(0),
                    old(self).current_msg_id,
                )
                &&& final(self).current_msg_id == old(self).current_msg_id + 1
                &&& final(self).inst_id == old(self).inst_id
            },
    {
        if self.current_msg_id == u32::MAX {
            return None;
        }
        let inst: u32 = match self.inst_id {
            Some(i) => i,
            None => 0,
        };
        let hi: u64 = inst as u64;
        let lo: u64 = self.current_msg_id as u64;
        let id: u64 = (hi << 32u64) | lo;
        assert(hi < 0x1_0000_0000 && lo < 0x1_0000_0000 ==> (hi << 32u64) | lo == hi * 0x1_0000_0000
            + lo) by (bit_vector);
        self.current_msg_id = self.current_msg_id + 1;
        Some(MessageHandle { id })
    }
}


/// The method names that have an event handler; a handler is known by its
/// position in the table.
pub struct HandlerTable {
    methods: Vec<String>,
}

/// The position of `m` in `names`, if it is there.
pub open spec fn handler_of(names: Seq<Seq<char>>, m: Seq<char>) -> Option<usize> {
    if exists|i: int| 0 <= i < names.len() && names[i] == m {
        Some((choose|i: int| 0 <= i < names.len() && names[i] == m) as usize)
    } else {
        None
    }
}

impl HandlerTable {
    /// The registered method names, in order of registration.
    pub closed spec fn names(&self) -> Seq<Seq<char>> {
        self.methods@.map_values(|m: String| m@)
    }

    /// Each method name stands once.
    pub open spec fn wf(&self) -> bool {
        self.names().no_duplicates()
    }

    /// A table without handlers.
    pub fn new() -> (r: HandlerTable)
        ensures
            r.wf(),
            r.names() == Seq::<Seq<char>>::empty(),
    {
        let r = HandlerTable { methods: Vec::new() };
        assert(r.names() =~= Seq::<Seq<char>>::empty());
        r
    }

    /// The handler registered for `method`.
    pub fn lookup(&self, method: &String) -> (r: Option<usize>)
        requires
            self.wf(),
        ensures
            r == handler_of(self.names(), method@),
    {
        let mut j: usize = 0;
        while j < self.methods.len()
            invariant
                0 <= j <= self.methods@.len(),
                self.wf(),
                self.names().len() == self.methods@.len(),
                forall|k: int| 0 <= k < j ==> self.names()[k] != method@,
            decreases self.methods@.len() - j,
        {
            if self.methods[j].eq(method) {
                proof {
                    let names = self.names();
                    assert(names[j as int] == method@);
                    let c = choose|i: int| 0 <= i < names.len() && names[i] == method@;
                    assert(c == j as int) by {
                        if c != j as int {
                            assert(names[c] == names[j as int]);
                        }
                    }
                }
                return Some(j);
            }
            j = j + 1;
        }
        None
    }

    /// Installs a handler for `method`, or replaces the one it had: the
    /// result is the handler's position.
    pub fn register(&mut self, method: String) -> (r: usize)
        requires
            old(self).wf(),
        ensures
            final(self).wf(),
            handler_of(old(self).names(), method@) is Some ==> {
                &&& final(self).names() == old(self).names()
                &&& Some(r) == handler_of(old(self).names(), method@)
            },
            handler_of(old(self).names(), method@) is None ==> {
                &&& final(self).names() == old(self).names().push(method@)
                &&& r == old(self).names().len()
            },
            handler_of(final(self).names(), method@) == Some(r),
    {
        match self.lookup(&method) {
            Some(j) => j,
            None => {
                let ghost before = self.names();
                let n = self.methods.len();
                self.methods.push(method);
                proof {
                    let names = self.names();
                    assert(names =~= before.push(method@));
                    assert(names[n as int] == method@);
                    let c = choose|i: int| 0 <= i < names.len() && names[i] == method@;
                    assert(c == n as int) by {
                        if c != n as int {
                            assert(before[c] == method@);
                        }
                    }
                }
                n
            },
        }
    }
}

/// A decoded message from the server, with its JSON values left as `T`.
pub enum RpcRes<T> {
    /// An event that no request asked for.
    Event { method: String, params: T },
    /// The result of the request with this id.
    Response { result: T, id: u64 },
    /// The server's error for the request with this id.
    Error { error: T, id: u64 },
}

/// What to do with one message while waiting.
pub enum WaitStep<T> {
    /// The result was stored; more are awaited.
    Stored,
    /// The result was stored and it was the last one awaited.
    Complete,
    /// A response to no awaited id: report it and go on.
    Unexpected { id: u64, result: T },
    /// Hand `params` to the handler at this position.
    Deliver { handler: usize, params: T },
    /// An event without a handler: report it and go on.
    Unhandled { method: String, params: T },
    /// The server failed the call.
    Failed { error: T },
}

/// `s` with each repeated element left out after its first occurrence.
pub open spec fn dedup(s: Seq<u64>) -> Seq<u64>
    decreases s.len(),
{
    if s.len() == 0 {
        Seq::empty()
    } else {
        let d = dedup(s.drop_last());
        if d.contains(s.last()) {
            d
        } else {
            d.push(s.last())
        }
    }
}

/// The slot of `ids` that waits for `id` and has no result yet.
pub open spec fn slot_of<T>(ids: Seq<u64>, results: Seq<Option<T>>, id: u64) -> Option<int> {
    if exists|i: int| 0 <= i < ids.len() && ids[i] == id && (#[trigger] results[i]) is None {
        Some(choose|i: int| 0 <= i < ids.len() && ids[i] == id && (#[trigger] results[i]) is None)
    } else {
        None
    }
}

/// The ids of `hs`, in order.
pub open spec fn handle_ids(hs: Seq<MessageHandle>) -> Seq<u64> {
    hs.map_values(|h: MessageHandle| h.id)
}

/// The responses that one caller waits for, one slot per distinct id, in
/// the caller's order.
pub struct Waiter<T> {
    ids: Vec<u64>,
    results: Vec<Option<T>>,
}

impl<T> Waiter<T> {
    /// The awaited ids, in the caller's order.
    pub closed spec fn ids(&self) -> Seq<u64> {
        self.ids@
    }

    /// The result stored for each awaited id so far.
    pub closed spec fn results(&self) -> Seq<Option<T>> {
        self.results@
    }

    /// One slot per id, and each id once.
    pub open spec fn wf(&self) -> bool {
        &&& self.ids().len() == self.results().len()
        &&& self.ids().no_duplicates()
    }

    /// Every awaited id has its result.
    pub open spec fn done(&self) -> bool {
        forall|i: int| 0 <= i < self.results().len() ==> (#[trigger] self.results()[i]) is Some
    }

    /// Waits for the responses to `handles`; a handle given twice is waited
    /// for once.
    pub fn new(handles: &Vec<MessageHandle>) -> (r: Waiter<T>)
        ensures
            r.wf(),
            r.ids() == dedup(handle_ids(handles@)),
            forall|i: int| 0 <= i < r.results().len() ==> (#[trigger] r.results()[i]) is None,
    {
        let ghost hids = handle_ids(handles@);
        let mut ids: Vec<u64> = Vec::new();
        let mut results: Vec<Option<T>> = Vec::new();
        let mut i: usize = 0;
        while i < handles.len()
            invariant
                0 <= i <= handles@.len(),
                hids == handle_ids(handles@),
                ids@ == dedup(hids.take(i as int)),
                ids@.no_duplicates(),
                results@.len() == ids@.len(),
                forall|k: int| 0 <= k < results@.len() ==> (#[trigger] results@[k]) is None,
            decreases handles@.len() - i,
        {
            let id = handles[i].id;
            assert(hids.take(i as int + 1).drop_last() =~= hids.take(i as int));
            assert(hids.take(i as int + 1).last() == id);
            let mut k: usize = 0;
            let mut seen = false;
            while k < ids.len()
                invariant
                    0 <= k <= ids@.len(),
                    seen ==> ids@.contains(id),
                    !seen ==> forall|m: int| 0 <= m < k ==> ids@[m] != id,
                decreases ids@.len() - k,
            {
                if ids[k] == id {
                    seen = true;
                }
                k = k + 1;
            }
            if !seen {
                ids.push(id);
                results.push(None);
            }
            i = i + 1;
        }
        assert(hids.take(handles@.len() as int) =~= hids);
        Waiter { ids, results }
    }

    /// Whether nothing is left to wait for.
    pub fn is_done(&self) -> (r: bool)
        requires
            self.wf(),
        ensures
            r == self.done(),
    {
        let mut i: usize = 0;
        while i < self.results.len()
            invariant
                0 <= i <= self.results@.len(),
                forall|k: int| 0 <= k < i ==> (#[trigger] self.results@[k]) is Some,
            decreases self.results@.len() - i,
        {
            if self.results[i].is_none() {
                return false;
            }
            i = i + 1;
        }
        true
    }

    /// The slot that waits for `id` and has no result yet.
    fn open_slot(&self, id: u64) -> (r: Option<usize>)
        requires
            self.wf(),
        ensures
            match slot_of(self.ids(), self.results(), id) {
                Some(i) => r == Some(i as usize),
                None => r is None,
            },
    {
        let mut i: usize = 0;
        while i < self.ids.len()
            invariant
                0 <= i <= self.ids@.len(),
                self.wf(),
                forall|k: int|
                    0 <= k < i ==> !(self.ids@[k] == id && (#[trigger] self.results@[k]) is None),
            decreases self.ids@.len() - i,
        {
            if self.ids[i] == id && self.results[i].is_none() {
                proof {
                    let c = choose|k: int|
                        0 <= k < self.ids().len() && self.ids()[k] == id && (
                        #[trigger] self.results()[k]) is None;
                    assert(self.results()[i as int] is None);
                    assert(c == i as int) by {
                        if c != i as int {
                            assert(self.ids@[c] == self.ids@[i as int]);
                        }
                    }
                }
                return Some(i);
            }
            i = i + 1;
        }
        None
    }

    /// Takes one message from the server into account. A response to an
    /// awaited id that has no result yet fills that id's slot and nothing
    /// else; an event goes to its handler, or is reported when there is none,
    /// and leaves the slots as they were; an error fails the call.
    pub fn accept(&mut self, msg: RpcRes<T>, handlers: &HandlerTable) -> (step: WaitStep<T>)
        requires
            old(self).wf(),
            handlers.wf(),
        ensures
            final(self).wf(),
            final(self).ids() == old(self).ids(),
            match msg {
                RpcRes::Response { result, id } => match slot_of(old(self).ids(), old(self).results(), id) {
                    Some(i) => {
                        &&& final(self).results() == old(self).results().update(i, Some(result))
                        &&& final(self).done() ==> step is Complete
                        &&& !final(self).done() ==> step is Stored
                    },
                    None => {
                        &&& final(self).results() == old(self).results()
                        &&& step == (WaitStep::Unexpected { id, result })
                    },
                },
                RpcRes::Event { method, params } => {
                    &&& final(self).results() == old(self).results()
                    &&& match handler_of(handlers.names(), method@) {
                        Some(h) => step == (WaitStep::Deliver { handler: h, params }),
                        None => step == (WaitStep::Unhandled { method, params }),
                    }
                },
                RpcRes::Error { error, id } => {
                    &&& final(self).results() == old(self).results()
                    &&& step == (WaitStep::Failed { error })
                },
            },
    {
        match msg {
            RpcRes::Response { result, id } => {
                match self.open_slot(id) {
                    Some(i) => {
                        self.results.set(i, Some(result));
                        if self.is_done() {
                            WaitStep::Complete
                        } else {
                            WaitStep::Stored
                        }
                    },
                    None => WaitStep::Unexpected { id, result },
                }
            },
            RpcRes::Event { method, params } => {
                match handlers.lookup(&method) {
                    Some(h) => WaitStep::Deliver { handler: h, params },
                    None => WaitStep::Unhandled { method, params },
                }
            },
            RpcRes::Error { error, id } => WaitStep::Failed { error },
        }
    }

    /// The results, in the order of the awaited ids.
    pub fn finish(self) -> (r: Vec<T>)
        requires
            self.wf(),
            self.done(),
        ensures
            r@.len() == self.ids().len(),
            forall|i: int| 0 <= i < r@.len() ==> Some(#[trigger] r@[i]) == self.results()[i],
    {
        let ghost all = self.results@;
        let mut results = self.results;
        let mut out: Vec<T> = Vec::new();
        while results.len() > 0
            invariant
                out@.len() + results@.len() == all.len(),
                results@ == all.skip(out@.len() as int),
                forall|i: int| 0 <= i < all.len() ==> (#[trigger] all[i]) is Some,
                forall|i: int| 0 <= i < out@.len() ==> Some(#[trigger] out@[i]) == all[i],
            decreases results@.len(),
        {
            let ghost k = out@.len() as int;
            assert(results@[0] == all[k]);
            let first = results.remove(0);
            assert(results@ =~= all.skip(k + 1));
            match first {
                Some(v) => {
                    out.push(v);
                },
                None => {
                    assert(false);
                },
            }
        }
        out
    }
}


/// The slots after a run of responses (id, result), each taken in turn as
/// [`Waiter::accept`] takes a response.
pub open spec fn after_responses<T>(
    ids: Seq<u64>,
    results: Seq<Option<T>>,
    responses: Seq<(u64, T)>,
) -> Seq<Option<T>>
    decreases responses.len(),
{
    if responses.len() == 0 {
        results
    } else {
        let prev = after_responses(ids, results, responses.drop_last());
        let (id, r) = responses.last();
        match slot_of(ids, prev, id) {
            Some(i) => prev.update(i, Some(r)),
            None => prev,
        }
    }
}

/// The result of the first of `responses` that carries `id`.
pub open spec fn first_response<T>(responses: Seq<(u64, T)>, id: u64) -> Option<T>
    decreases responses.len(),
{
    if responses.len() == 0 {
        None
    } else {
        match first_response(responses.drop_last(), id) {
            Some(r) => Some(r),
            None => if responses.last().0 == id {
                Some(responses.last().1)
            } else {
                None
            },
        }
    }
}

/// Every request waited for gets exactly one result, the one the server
/// sent for its id: starting from empty slots, after any run of responses
/// the slot of each awaited id holds the result of the first response that
/// carries that id, and stays empty while none has come.
pub proof fn lemma_each_id_gets_its_response<T>(
    ids: Seq<u64>,
    empty: Seq<Option<T>>,
    responses: Seq<(u64, T)>,
)
    requires
        ids.no_duplicates(),
        empty.len() == ids.len(),
        forall|i: int| 0 <= i < empty.len() ==> (#[trigger] empty[i]) is None,
    ensures
        after_responses(ids, empty, responses).len() == ids.len(),
        forall|i: int|
            0 <= i < ids.len() ==> #[trigger] after_responses(ids, empty, responses)[i]
                == first_response(responses, ids[i]),
    decreases responses.len(),
{
    if responses.len() > 0 {
        let init = responses.drop_last();
        lemma_each_id_gets_its_response(ids, empty, init);
        let prev = after_responses(ids, empty, init);
        let (id, r) = responses.last();
        let now = after_responses(ids, empty, responses);
        match slot_of(ids, prev, id) {
            Some(k) => {
                assert(0 <= k < ids.len() && ids[k] == id && prev[k] is None);
                assert forall|i: int| 0 <= i < ids.len() implies #[trigger] now[i] == first_response(
                    responses,
                    ids[i],
                ) by {
                    if i != k {
                        assert(ids[i] != ids[k]);
                    }
                }
            },
            None => {
                assert forall|i: int| 0 <= i < ids.len() implies #[trigger] now[i] == first_response(
                    responses,
                    ids[i],
                ) by {
                    if ids[i] == id {
                        assert(!(0 <= i < ids.len() && ids[i] == id && prev[i] is None));
                    }
                }
            },
        }
    }
}

} // verus!
