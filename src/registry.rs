//! The registry of live tunnel connections, each with its outbound queue.
//!
//! Every connection gets the next identifier of a counter that never goes
//! back, so an identifier is never reused while the registry lives. Messages
//! for a connection wait in its queue, oldest first, until its writer takes
//! them out.

use vstd::prelude::*;

verus! {

/// One connection as the contracts see it.
pub struct ConnView {
    pub id: u64,
    pub addr: Option<Seq<char>>,
    pub outbox: Seq<Seq<char>>,
}

/// The registry as the contracts see it.
pub struct RegistryView {
    pub next_id: u64,
    pub conns: Seq<ConnView>,
}

/// One live connection: its identifier, the peer's address if known, and the
/// messages queued for it.
pub struct Connection {
    id: u64,
    addr: Option<String>,
    outbox: Vec<String>,
}

pub open spec fn addr_view(a: Option<String>) -> Option<Seq<char>> {
    match a {
        Some(s) => Some(s@),
        None => None,
    }
}

impl View for Connection {
    type V = ConnView;

    closed spec fn view(&self) -> ConnView {
        ConnView {
            id: self.id,
            addr: addr_view(self.addr),
            outbox: self.outbox@.map_values(|m: String| m@),
        }
    }
}

impl Connection {
    fn deliver(&mut self, msg: &str)
        ensures
            final(self)@ == (ConnView { outbox: old(self)@.outbox.push(msg@), ..old(self)@ }),
    {
        let ghost before = self@;
        self.outbox.push(String::from_str(msg));
        assert(self@.outbox =~= before.outbox.push(msg@));
    }
}

/// `send` found no connection under the identifier: the recipient is gone.
pub struct SendFailure;

/// Identifiers are issued from 1 on; the connections stand in the order they
/// registered, so their identifiers increase, and all are below the counter.
pub open spec fn registry_wf(v: RegistryView) -> bool {
    &&& v.next_id >= 1
    &&& forall|i: int, j: int| 0 <= i < j < v.conns.len() ==> v.conns[i].id < v.conns[j].id
    &&& forall|i: int| 0 <= i < v.conns.len() ==> #[trigger] v.conns[i].id < v.next_id
}

pub open spec fn is_registered(v: RegistryView, id: u64) -> bool {
    exists|i: int| 0 <= i < v.conns.len() && v.conns[i].id == id
}

pub open spec fn conn_index(v: RegistryView, id: u64) -> int {
    choose|i: int| 0 <= i < v.conns.len() && v.conns[i].id == id
}

/// The registry after a connection from `addr` registers.
pub open spec fn register_state(v: RegistryView, addr: Option<Seq<char>>) -> RegistryView {
    RegistryView {
        next_id: (v.next_id + 1) as u64,
        conns: v.conns.push(ConnView { id: v.next_id, addr, outbox: Seq::empty() }),
    }
}

/// The registry after connection `id` is removed; nothing changes if it is
/// not there.
pub open spec fn remove_state(v: RegistryView, id: u64) -> RegistryView {
    if is_registered(v, id) {
        RegistryView { conns: v.conns.remove(conn_index(v, id)), ..v }
    } else {
        v
    }
}

pub open spec fn enqueue(c: ConnView, msg: Seq<char>) -> ConnView {
    ConnView { outbox: c.outbox.push(msg), ..c }
}

/// The registry after `msg` is queued for connection `id`.
pub open spec fn send_state(v: RegistryView, id: u64, msg: Seq<char>) -> RegistryView {
    let i = conn_index(v, id);
    RegistryView { conns: v.conns.update(i, enqueue(v.conns[i], msg)), ..v }
}

/// The registry after `msg` is queued for every connection but `sender`.
pub open spec fn broadcast_state(v: RegistryView, sender: u64, msg: Seq<char>) -> RegistryView {
    RegistryView {
        conns: v.conns.map_values(
            |c: ConnView|
                if c.id != sender {
                    enqueue(c, msg)
                } else {
                    c
                },
        ),
        ..v
    }
}

/// The registry after the queue of connection `id` is emptied.
pub open spec fn drain_state(v: RegistryView, id: u64) -> RegistryView {
    let i = conn_index(v, id);
    RegistryView { conns: v.conns.update(i, ConnView { outbox: Seq::empty(), ..v.conns[i] }), ..v }
}

proof fn lemma_conn_index(v: RegistryView, id: u64, i: int)
    requires
        registry_wf(v),
        0 <= i < v.conns.len(),
        v.conns[i].id == id,
    ensures
        is_registered(v, id),
        conn_index(v, id) == i,
{
    let j = conn_index(v, id);
    assert(v.conns[j].id == id);
    if j < i {
        assert(v.conns[j].id < v.conns[i].id);
    } else if i < j {
        assert(v.conns[i].id < v.conns[j].id);
    }
}

proof fn lemma_remove_wf(v: RegistryView, id: u64)
    requires
        registry_wf(v),
    ensures
        registry_wf(remove_state(v, id)),
{
    if is_registered(v, id) {
        let i = conn_index(v, id);
        let w = remove_state(v, id);
        assert forall|x: int, y: int| 0 <= x < y < w.conns.len() implies w.conns[x].id
            < w.conns[y].id by {
            let xs = if x < i { x } else { x + 1 };
            let ys = if y < i { y } else { y + 1 };
            assert(w.conns[x] == v.conns[xs]);
            assert(w.conns[y] == v.conns[ys]);
        }
        assert forall|x: int| 0 <= x < w.conns.len() implies #[trigger] w.conns[x].id
            < w.next_id by {
            let xs = if x < i { x } else { x + 1 };
            assert(w.conns[x] == v.conns[xs]);
        }
    }
}

/// The queue of connection `id`.
pub open spec fn outbox_of(v: RegistryView, id: u64) -> Seq<Seq<char>> {
    v.conns[conn_index(v, id)].outbox
}

/// A broadcast from `sender` reaches every other registered connection and
/// not the sender, and a connection removed before or after it does not keep
/// the message from the others: in either order, each remaining connection
/// other than the sender finds `msg` at the end of its queue.
pub proof fn lemma_broadcast_delivery(v: RegistryView, sender: u64, gone: u64, msg: Seq<char>)
    requires
        registry_wf(v),
    ensures
        forall|id: u64|
            #![trigger outbox_of(broadcast_state(v, sender, msg), id)]
            is_registered(v, id) ==> outbox_of(broadcast_state(v, sender, msg), id) == if id
                != sender {
                outbox_of(v, id).push(msg)
            } else {
                outbox_of(v, id)
            },
        forall|id: u64|
            #![trigger outbox_of(broadcast_state(remove_state(v, gone), sender, msg), id)]
            is_registered(v, id) && id != gone && id != sender ==> {
                &&& is_registered(broadcast_state(remove_state(v, gone), sender, msg), id)
                &&& outbox_of(broadcast_state(remove_state(v, gone), sender, msg), id)
                    == outbox_of(v, id).push(msg)
                &&& is_registered(remove_state(broadcast_state(v, sender, msg), gone), id)
                &&& outbox_of(remove_state(broadcast_state(v, sender, msg), gone), id)
                    == outbox_of(v, id).push(msg)
            },
{
    lemma_broadcast_keeps_ids(v, sender, msg);
    lemma_remove_wf(v, gone);
    let r = remove_state(v, gone);
    lemma_broadcast_keeps_ids(r, sender, msg);
    let b = broadcast_state(v, sender, msg);
    lemma_remove_wf(b, gone);
    assert forall|id: u64| is_registered(v, id) implies outbox_of(
        broadcast_state(v, sender, msg),
        id,
    ) == if id != sender {
        outbox_of(v, id).push(msg)
    } else {
        outbox_of(v, id)
    } by {
        let i = conn_index(v, id);
        lemma_conn_index(b, id, i);
    }
    assert forall|id: u64| is_registered(v, id) && id != gone && id != sender implies {
        &&& is_registered(broadcast_state(remove_state(v, gone), sender, msg), id)
        &&& outbox_of(broadcast_state(remove_state(v, gone), sender, msg), id) == outbox_of(
            v,
            id,
        ).push(msg)
        &&& is_registered(remove_state(broadcast_state(v, sender, msg), gone), id)
        &&& outbox_of(remove_state(broadcast_state(v, sender, msg), gone), id) == outbox_of(
            v,
            id,
        ).push(msg)
    } by {
        let i = conn_index(v, id);
        // where `id` stands once `gone` is out
        let k = if is_registered(v, gone) && conn_index(v, gone) < i {
            i - 1
        } else {
            i
        };
        if is_registered(v, gone) {
            let g = conn_index(v, gone);
            assert(g != i);
        }
        assert(r.conns[k] == v.conns[i]);
        lemma_conn_index(r, id, k);
        let rb = broadcast_state(r, sender, msg);
        lemma_conn_index(rb, id, k);
        lemma_conn_index(b, id, i);
        if is_registered(b, gone) {
            lemma_conn_index(b, gone, conn_index(v, gone));
        }
        let br = remove_state(b, gone);
        assert(br.conns[k] == b.conns[i]);
        lemma_conn_index(br, id, k);
    }
}

proof fn lemma_broadcast_keeps_ids(v: RegistryView, sender: u64, msg: Seq<char>)
    requires
        registry_wf(v),
    ensures
        registry_wf(broadcast_state(v, sender, msg)),
        forall|id: u64|
            #[trigger] is_registered(broadcast_state(v, sender, msg), id) == is_registered(v, id),
        forall|id: u64|
            is_registered(v, id) ==> #[trigger] conn_index(
                broadcast_state(v, sender, msg),
                id,
            ) == conn_index(v, id),
{
    let b = broadcast_state(v, sender, msg);
    assert forall|i: int| 0 <= i < b.conns.len() implies #[trigger] b.conns[i].id == v.conns[i].id by {}
    assert forall|id: u64| #[trigger] is_registered(b, id) == is_registered(v, id) by {
        if is_registered(v, id) {
            let i = conn_index(v, id);
            assert(b.conns[i].id == id);
        }
        if is_registered(b, id) {
            let i = conn_index(b, id);
            assert(v.conns[i].id == id);
        }
    }
    assert forall|id: u64| is_registered(v, id) implies #[trigger] conn_index(b, id)
        == conn_index(v, id) by {
        let i = conn_index(v, id);
        lemma_conn_index(b, id, i);
    }
}

/// What a caller may do to the registry, for stating laws over sequences of
/// calls.
pub enum RegistryOp {
    Register(Option<Seq<char>>),
    Remove(u64),
}

/// The registry after `ops`, in order.
pub open spec fn run_ops(v: RegistryView, ops: Seq<RegistryOp>) -> RegistryView
    decreases ops.len(),
{
    if ops.len() == 0 {
        v
    } else {
        let w = run_ops(v, ops.drop_last());
        match ops.last() {
            RegistryOp::Register(a) => register_state(w, a),
            RegistryOp::Remove(id) => remove_state(w, id),
        }
    }
}

/// The identifiers that the registrations among `ops` return, in order.
pub open spec fn issued_ids(v: RegistryView, ops: Seq<RegistryOp>) -> Seq<u64>
    decreases ops.len(),
{
    if ops.len() == 0 {
        Seq::empty()
    } else {
        let prev = issued_ids(v, ops.drop_last());
        match ops.last() {
            RegistryOp::Register(_) => prev.push(run_ops(v, ops.drop_last()).next_id),
            RegistryOp::Remove(_) => prev,
        }
    }
}

/// Over any sequence of registrations and removals, the identifiers handed
/// out strictly increase, so none repeats, and none equals an identifier that
/// was registered before the sequence began.
pub proof fn lemma_ids_strictly_increase(v: RegistryView, ops: Seq<RegistryOp>)
    requires
        registry_wf(v),
        v.next_id + ops.len() <= u64::MAX,
    ensures
        forall|i: int, j: int|
            0 <= i < j < issued_ids(v, ops).len() ==> issued_ids(v, ops)[i] < issued_ids(
                v,
                ops,
            )[j],
        forall|i: int|
            0 <= i < issued_ids(v, ops).len() ==> v.next_id <= #[trigger] issued_ids(v, ops)[i]
                < run_ops(v, ops).next_id,
        forall|i: int, k: int|
            #![trigger v.conns[k], issued_ids(v, ops)[i]]
            0 <= i < issued_ids(v, ops).len() && 0 <= k < v.conns.len() ==> v.conns[k].id
                < issued_ids(v, ops)[i],
        v.next_id <= run_ops(v, ops).next_id <= v.next_id + ops.len(),
    decreases ops.len(),
{
    if ops.len() > 0 {
        let init = ops.drop_last();
        lemma_ids_strictly_increase(v, init);
        let w = run_ops(v, init);
        let prev = issued_ids(v, init);
        let ids = issued_ids(v, ops);
        match ops.last() {
            RegistryOp::Register(a) => {
                assert(ids == prev.push(w.next_id));
                assert forall|i: int, j: int| 0 <= i < j < ids.len() implies ids[i] < ids[j] by {
                    if j == ids.len() - 1 {
                        assert(ids[i] == prev[i]);
                    } else {
                        assert(ids[i] == prev[i] && ids[j] == prev[j]);
                    }
                }
                assert forall|i: int| 0 <= i < ids.len() implies v.next_id <= #[trigger] ids[i]
                    < run_ops(v, ops).next_id by {
                    if i < prev.len() {
                        assert(ids[i] == prev[i]);
                    }
                }
                assert forall|i: int, k: int|
                    #![trigger v.conns[k], ids[i]]
                    0 <= i < ids.len() && 0 <= k < v.conns.len() implies v.conns[k].id
                        < ids[i] by {
                    assert(v.conns[k].id < v.next_id);
                }
            },
            RegistryOp::Remove(id) => {
                assert(ids == prev);
            },
        }
    }
}

/// The live connections.
pub struct Registry {
    next_id: u64,
    conns: Vec<Connection>,
}

impl View for Registry {
    type V = RegistryView;

    closed spec fn view(&self) -> RegistryView {
        RegistryView { next_id: self.next_id, conns: self.conns@.map_values(|c: Connection| c@) }
    }
}

impl Registry {
    pub open spec fn wf(&self) -> bool {
        registry_wf(self@)
    }

    /// An empty registry whose first identifier will be 1.
    pub fn new() -> (r: Registry)
        ensures
            r.wf(),
            r@.next_id == 1,
            r@.conns == Seq::<ConnView>::empty(),
    {
        let r = Registry { next_id: 1, conns: Vec::new() };
        assert(r@.conns =~= Seq::<ConnView>::empty());
        r
    }

    /// Whether the counter can still issue an identifier.
    pub fn can_register(&self) -> (r: bool)
        ensures
            r == (self@.next_id < u64::MAX),
    {
        self.next_id < u64::MAX
    }

    /// Registers a connection from `addr` and returns its new identifier.
    pub fn register(&mut self, addr: Option<String>) -> (r: u64)
        requires
            old(self).wf(),
            old(self)@.next_id < u64::MAX,
        ensures
            final(self).wf(),
            r == old(self)@.next_id,
            final(self)@ == register_state(old(self)@, addr_view(addr)),
    {
        let ghost before = self@;
        let id = self.next_id;
        let c = Connection { id, addr, outbox: Vec::new() };
        assert(c@.outbox =~= Seq::<Seq<char>>::empty());
        self.conns.push(c);
        self.next_id = self.next_id + 1;
        assert(self@.conns =~= register_state(before, addr_view(addr)).conns);
        id
    }

    fn position(&self, id: u64) -> (r: Option<usize>)
        requires
            self.wf(),
        ensures
            r is None <==> !is_registered(self@, id),
            r matches Some(i) ==> i < self@.conns.len() && i == conn_index(self@, id),
    {
        let mut i: usize = 0;
        while i < self.conns.len()
            invariant
                i <= self.conns@.len(),
                self.wf(),
                forall|k: int| 0 <= k < i ==> (#[trigger] self@.conns[k]).id != id,
            decreases self.conns@.len() - i,
        {
            if self.conns[i].id == id {
                proof {
                    assert(self@.conns[i as int].id == id);
                    lemma_conn_index(self@, id, i as int);
                }
                return Some(i);
            }
            assert(self@.conns[i as int].id != id);
            i = i + 1;
        }
        None
    }

    /// Whether connection `id` is registered.
    pub fn contains(&self, id: u64) -> (r: bool)
        requires
            self.wf(),
        ensures
            r == is_registered(self@, id),
    {
        self.position(id).is_some()
    }

    /// Removes connection `id`; removing one that is not there does nothing.
    pub fn remove(&mut self, id: u64)
        requires
            old(self).wf(),
        ensures
            final(self).wf(),
            final(self)@ == remove_state(old(self)@, id),
    {
        match self.position(id) {
            None => {},
            Some(i) => {
                let ghost before = self@;
                self.conns.remove(i);
                assert(self@.conns =~= before.conns.remove(i as int));
                proof {
                    lemma_remove_wf(before, id);
                }
            },
        }
    }

    /// The identifiers of the registered connections, oldest first.
    pub fn list(&self) -> (r: Vec<u64>)
        ensures
            r@ == self@.conns.map_values(|c: ConnView| c.id),
    {
        let mut r: Vec<u64> = Vec::new();
        let mut i: usize = 0;
        while i < self.conns.len()
            invariant
                i <= self.conns@.len(),
                r@ == self@.conns.subrange(0, i as int).map_values(|c: ConnView| c.id),
            decreases self.conns@.len() - i,
        {
            r.push(self.conns[i].id);
            assert(self@.conns.subrange(0, i + 1).map_values(|c: ConnView| c.id) =~= self@.conns.subrange(
                0,
                i as int,
            ).map_values(|c: ConnView| c.id).push(self@.conns[i as int].id));
            i = i + 1;
        }
        assert(self@.conns.subrange(0, i as int) =~= self@.conns);
        r
    }

    /// The registered connections with their peers' addresses, oldest first.
    pub fn clients(&self) -> (r: Vec<(u64, Option<String>)>)
        ensures
            r@.len() == self@.conns.len(),
            forall|k: int|
                0 <= k < r@.len() ==> (#[trigger] r@[k]).0 == self@.conns[k].id && addr_view(
                    r@[k].1,
                ) == self@.conns[k].addr,
    {
        let mut r: Vec<(u64, Option<String>)> = Vec::new();
        let mut i: usize = 0;
        while i < self.conns.len()
            invariant
                i <= self.conns@.len(),
                r@.len() == i,
                forall|k: int|
                    0 <= k < i ==> (#[trigger] r@[k]).0 == self@.conns[k].id && addr_view(r@[k].1)
                        == self@.conns[k].addr,
            decreases self.conns@.len() - i,
        {
            let c = &self.conns[i];
            let addr = match &c.addr {
                Some(a) => Some(a.clone()),
                None => None,
            };
            r.push((c.id, addr));
            i = i + 1;
        }
        r
    }

    /// Queues `msg` for connection `id`, or reports that it is gone.
    pub fn send(&mut self, id: u64, msg: &str) -> (r: Result<(), SendFailure>)
        requires
            old(self).wf(),
        ensures
            final(self).wf(),
            r is Ok <==> is_registered(old(self)@, id),
            r is Ok ==> final(self)@ == send_state(old(self)@, id, msg@),
            r is Err ==> final(self)@ == old(self)@,
    {
        match self.position(id) {
            None => Err(SendFailure),
            Some(i) => {
                let ghost before = self@;
                self.conns[i].deliver(msg);
                assert(self@.conns =~= send_state(before, id, msg@).conns);
                Ok(())
            },
        }
    }

    /// Queues `msg` for every registered connection except `sender`.
    pub fn broadcast(&mut self, sender: u64, msg: &str)
        requires
            old(self).wf(),
        ensures
            final(self).wf(),
            final(self)@ == broadcast_state(old(self)@, sender, msg@),
    {
        let ghost before = self@;
        let ghost target = broadcast_state(before, sender, msg@);
        let mut i: usize = 0;
        while i < self.conns.len()
            invariant
                i <= self.conns@.len(),
                self.conns@.len() == before.conns.len(),
                self@.next_id == before.next_id,
                target == broadcast_state(before, sender, msg@),
                forall|k: int|
                    0 <= k < self@.conns.len() ==> #[trigger] self@.conns[k] == if k < i {
                        target.conns[k]
                    } else {
                        before.conns[k]
                    },
            decreases self.conns@.len() - i,
        {
            let ghost mid = self@;
            assert(mid.conns[i as int] == before.conns[i as int]);
            if self.conns[i].id != sender {
                self.conns[i].deliver(msg);
            }
            assert(self@.conns =~= mid.conns.update(i as int, target.conns[i as int]));
            i = i + 1;
        }
        assert(self@.conns =~= target.conns);
    }

    /// Takes out every message queued for connection `id`, oldest first; an
    /// unknown connection has none.
    pub fn take_outbox(&mut self, id: u64) -> (r: Vec<String>)
        requires
            old(self).wf(),
        ensures
            final(self).wf(),
            is_registered(old(self)@, id) ==> r@.map_values(|m: String| m@) == old(self)@.conns[conn_index(old(self)@, id)].outbox
                && final(self)@ == drain_state(old(self)@, id),
            !is_registered(old(self)@, id) ==> r@.len() == 0 && final(self)@ == old(self)@,
    {
        match self.position(id) {
            None => Vec::new(),
            Some(i) => {
                let ghost before = self@;
                let mut taken: Vec<String> = Vec::new();
                let c = &mut self.conns[i];
                std::mem::swap(&mut c.outbox, &mut taken);
                assert(self@.conns[i as int].outbox =~= Seq::<Seq<char>>::empty());
                assert(self@.conns =~= drain_state(before, id).conns);
                taken
            },
        }
    }
}

} // verus!
