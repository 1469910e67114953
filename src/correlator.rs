//! The table of in-flight correlated requests.
//!
//! A request is opened under a fresh correlation id, completed at most once by
//! the agent's callback, and taken out of the table by the caller that waits on
//! it, whether an answer came or the wait ran out. Entries that nobody collects
//! are removed once they are older than a time-to-live.

use vstd::prelude::*;
use crate::protocol::{fresh_uuid, is_token, is_uuid_text, lemma_uuid_text_is_token};

verus! {

/// One in-flight request as the contracts see it.
pub struct PendingView {
    pub id: Seq<char>,
    pub answer: Option<Seq<u8>>,
    pub created_at: u64,
}

/// One in-flight request: its correlation id, the answer once it came, and
/// when it was opened.
pub struct PendingRequest {
    id: String,
    answer: Option<Vec<u8>>,
    created_at: u64,
}

pub open spec fn answer_view(a: Option<Vec<u8>>) -> Option<Seq<u8>> {
    match a {
        Some(v) => Some(v@),
        None => None,
    }
}

impl View for PendingRequest {
    type V = PendingView;

    closed spec fn view(&self) -> PendingView {
        PendingView { id: self.id@, answer: answer_view(self.answer), created_at: self.created_at }
    }
}

/// `complete` found no request waiting under the id: it was never opened, it
/// was already answered, or it was already taken out of the table.
pub struct UnknownCorrelationId;

/// `begin_with` was given an id that is already in the table.
pub struct DuplicateCorrelationId;

/// No answer had come when the wait for it ended.
pub struct Timeout;

pub open spec fn has_id(s: Seq<PendingView>, id: Seq<char>) -> bool {
    exists|i: int| 0 <= i < s.len() && s[i].id == id
}

pub open spec fn index_of(s: Seq<PendingView>, id: Seq<char>) -> int {
    choose|i: int| 0 <= i < s.len() && s[i].id == id
}

/// Some entry of the table is under an id in UUID form: only then can a fresh
/// UUID draw meet an id that is already in use.
pub open spec fn holds_uuid_id(s: Seq<PendingView>) -> bool {
    exists|k: int| 0 <= k < s.len() && is_uuid_text(#[trigger] s[k].id)
}

pub open spec fn unique_ids(s: Seq<PendingView>) -> bool {
    forall|i: int, j: int| 0 <= i < j < s.len() ==> s[i].id != s[j].id
}

/// The request under `id` is in the table and has no answer yet.
pub open spec fn is_waiting(s: Seq<PendingView>, id: Seq<char>) -> bool {
    has_id(s, id) && s[index_of(s, id)].answer is None
}

/// The table after a request is opened under `id` at time `now`.
pub open spec fn begin_state(s: Seq<PendingView>, id: Seq<char>, now: u64) -> Seq<PendingView> {
    s.push(PendingView { id, answer: None, created_at: now })
}

/// The table after the request under `id` is answered with `a`.
pub open spec fn complete_state(s: Seq<PendingView>, id: Seq<char>, a: Seq<u8>) -> Seq<PendingView> {
    let i = index_of(s, id);
    s.update(i, PendingView { answer: Some(a), ..s[i] })
}

/// The table after the request under `id` is taken out.
pub open spec fn finish_state(s: Seq<PendingView>, id: Seq<char>) -> Seq<PendingView> {
    if has_id(s, id) {
        s.remove(index_of(s, id))
    } else {
        s
    }
}

/// What the wait on `id` hands back: the answer, if one came.
pub open spec fn finish_answer(s: Seq<PendingView>, id: Seq<char>) -> Option<Seq<u8>> {
    if has_id(s, id) {
        s[index_of(s, id)].answer
    } else {
        None
    }
}

pub open spec fn is_expired(p: PendingView, now: u64, ttl: u64) -> bool {
    p.created_at + ttl <= now
}

/// The entries that have not yet outlived `ttl` at time `now`, in order.
pub open spec fn live_entries(s: Seq<PendingView>, now: u64, ttl: u64) -> Seq<PendingView>
    decreases s.len(),
{
    if s.len() == 0 {
        s
    } else {
        let rest = live_entries(s.drop_last(), now, ttl);
        if is_expired(s.last(), now, ttl) {
            rest
        } else {
            rest.push(s.last())
        }
    }
}

proof fn lemma_index_of(s: Seq<PendingView>, id: Seq<char>, i: int)
    requires
        unique_ids(s),
        0 <= i < s.len(),
        s[i].id == id,
    ensures
        has_id(s, id),
        index_of(s, id) == i,
{
    assert(has_id(s, id));
    let j = index_of(s, id);
    assert(s[j].id == id);
    if j < i {
        assert(s[j].id != s[i].id);
    } else if i < j {
        assert(s[i].id != s[j].id);
    }
}

proof fn lemma_live_entries_from(s: Seq<PendingView>, now: u64, ttl: u64)
    ensures
        forall|k: int|
            0 <= k < live_entries(s, now, ttl).len() ==> #[trigger] s.contains(
                live_entries(s, now, ttl)[k],
            ),
        unique_ids(s) ==> unique_ids(live_entries(s, now, ttl)),
    decreases s.len(),
{
    if s.len() > 0 {
        let t = s.drop_last();
        lemma_live_entries_from(t, now, ttl);
        let rest = live_entries(t, now, ttl);
        assert forall|k: int| 0 <= k < rest.len() implies #[trigger] s.contains(rest[k]) by {
            assert(t.contains(rest[k]));
            let m = choose|m: int| 0 <= m < t.len() && t[m] == rest[k];
            assert(s[m] == rest[k]);
        }
        if !is_expired(s.last(), now, ttl) {
            assert(s[s.len() - 1] == s.last());
            assert(s.contains(s.last()));
            if unique_ids(s) {
                assert(unique_ids(t));
                let r = rest.push(s.last());
                assert forall|i: int, j: int| 0 <= i < j < r.len() implies r[i].id != r[j].id by {
                    if j == r.len() - 1 {
                        assert(t.contains(rest[i]));
                        let m = choose|m: int| 0 <= m < t.len() && t[m] == rest[i];
                        assert(s[m] == rest[i]);
                        assert(s[m].id != s[s.len() - 1].id);
                    } else {
                        assert(r[i] == rest[i] && r[j] == rest[j]);
                    }
                }
            }
        }
    }
}

proof fn lemma_tails_agree(a: Seq<PendingView>, b: Seq<PendingView>, i: int, j: int)
    requires
        0 <= i < a.len(),
        0 <= j < b.len(),
        a.subrange(i, a.len() as int) == b.subrange(j, b.len() as int),
    ensures
        a.subrange(i + 1, a.len() as int) == b.subrange(j + 1, b.len() as int),
{
    assert(a.subrange(i + 1, a.len() as int) =~= a.subrange(i, a.len() as int).subrange(
        1,
        a.len() - i,
    ));
    assert(b.subrange(j + 1, b.len() as int) =~= b.subrange(j, b.len() as int).subrange(
        1,
        b.len() - j,
    ));
}

/// A request that is opened and then waited on with no answer in between
/// ends in a timeout, and the table is left exactly as it was before.
pub proof fn lemma_unanswered_wait_times_out(s: Seq<PendingView>, id: Seq<char>, now: u64)
    requires
        unique_ids(s),
        !has_id(s, id),
    ensures
        unique_ids(begin_state(s, id, now)),
        finish_answer(begin_state(s, id, now), id) is None,
        finish_state(begin_state(s, id, now), id) == s,
{
    let t = begin_state(s, id, now);
    assert forall|i: int, j: int| 0 <= i < j < t.len() implies t[i].id != t[j].id by {
        if j == s.len() {
            assert(t[i] == s[i]);
        } else {
            assert(t[i] == s[i] && t[j] == s[j]);
        }
    }
    lemma_index_of(t, id, s.len() as int);
    assert(t.remove(s.len() as int) =~= s);
}

/// An answer that arrives before anyone waits is not lost: the wait that
/// follows hands it over, and the table ends as if the request had simply
/// been taken out.
pub proof fn lemma_answer_before_wait(s: Seq<PendingView>, id: Seq<char>, a: Seq<u8>)
    requires
        unique_ids(s),
        is_waiting(s, id),
    ensures
        unique_ids(complete_state(s, id, a)),
        !is_waiting(complete_state(s, id, a), id),
        finish_answer(complete_state(s, id, a), id) == Some(a),
        finish_state(complete_state(s, id, a), id) == finish_state(s, id),
{
    let i = index_of(s, id);
    let t = complete_state(s, id, a);
    assert forall|x: int, y: int| 0 <= x < y < t.len() implies t[x].id != t[y].id by {
        assert(t[x].id == s[x].id && t[y].id == s[y].id);
    }
    lemma_index_of(t, id, i);
    assert(t.remove(i) =~= s.remove(i));
}

/// Answering one request leaves every other entry of the table as it was.
pub proof fn lemma_complete_is_local(s: Seq<PendingView>, id: Seq<char>, a: Seq<u8>, j: int)
    requires
        unique_ids(s),
        is_waiting(s, id),
        0 <= j < s.len(),
        s[j].id != id,
    ensures
        complete_state(s, id, a).len() == s.len(),
        complete_state(s, id, a)[j] == s[j],
{
}

/// The table of in-flight requests.
pub struct Correlator {
    pending: Vec<PendingRequest>,
}

impl View for Correlator {
    type V = Seq<PendingView>;

    closed spec fn view(&self) -> Seq<PendingView> {
        self.pending@.map_values(|p: PendingRequest| p@)
    }
}

impl Correlator {
    /// No two entries share a correlation id.
    pub open spec fn wf(&self) -> bool {
        unique_ids(self@)
    }

    /// An empty table.
    pub fn new() -> (r: Correlator)
        ensures
            r.wf(),
            r@ == Seq::<PendingView>::empty(),
    {
        let r = Correlator { pending: Vec::new() };
        assert(r@ =~= Seq::<PendingView>::empty());
        r
    }

    /// How many requests are in the table.
    pub fn len(&self) -> (r: usize)
        ensures
            r == self@.len(),
    {
        self.pending.len()
    }

    fn position(&self, id: &str) -> (r: Option<usize>)
        requires
            self.wf(),
        ensures
            r is None <==> !has_id(self@, id@),
            r matches Some(i) ==> i < self@.len() && i == index_of(self@, id@),
    {
        let key = String::from_str(id);
        let mut i: usize = 0;
        while i < self.pending.len()
            invariant
                i <= self.pending@.len(),
                self.wf(),
                key@ == id@,
                forall|k: int| 0 <= k < i ==> (#[trigger] self@[k]).id != id@,
            decreases self.pending@.len() - i,
        {
            if self.pending[i].id == key {
                proof {
                    assert(self@[i as int].id == id@);
                    lemma_index_of(self@, id@, i as int);
                }
                return Some(i);
            }
            assert(self@[i as int].id != id@);
            i = i + 1;
        }
        None
    }

    /// Whether a request under `id` is in the table.
    pub fn contains(&self, id: &str) -> (r: bool)
        requires
            self.wf(),
        ensures
            r == has_id(self@, id@),
    {
        self.position(id).is_some()
    }

    /// Opens a request under `id` at time `now`, unless that id is already in
    /// the table.
    pub fn begin_with(&mut self, id: String, now: u64) -> (r: Result<(), DuplicateCorrelationId>)
        requires
            old(self).wf(),
        ensures
            final(self).wf(),
            r is Ok <==> !has_id(old(self)@, id@),
            r is Ok ==> final(self)@ == begin_state(old(self)@, id@, now),
            r is Err ==> final(self)@ == old(self)@,
    {
        if self.position(id.as_str()).is_some() {
            return Err(DuplicateCorrelationId);
        }
        let ghost before = self@;
        let entry = PendingRequest { id, answer: None, created_at: now };
        self.pending.push(entry);
        assert(self@ =~= begin_state(before, entry@.id, now));
        Ok(())
    }

    /// Opens a request under a freshly drawn UUID and returns that id. It fails
    /// only if the draw hit an id that is still in the table, so it succeeds
    /// whenever no entry is under an id in UUID form (an empty table, say).
    pub fn begin(&mut self, now: u64) -> (r: Result<String, DuplicateCorrelationId>)
        requires
            old(self).wf(),
        ensures
            final(self).wf(),
            r matches Ok(id) ==> is_uuid_text(id@) && is_token(id@) && !has_id(old(self)@, id@)
                && final(self)@ == begin_state(old(self)@, id@, now),
            r is Err ==> final(self)@ == old(self)@ && holds_uuid_id(old(self)@),
    {
        let id = fresh_uuid();
        proof {
            lemma_uuid_text_is_token(id@);
        }
        let copy = id.clone();
        match self.begin_with(copy, now) {
            Ok(()) => Ok(id),
            Err(e) => {
                proof {
                    let k = index_of(self@, id@);
                    assert(is_uuid_text(self@[k].id));
                }
                Err(e)
            },
        }
    }

    /// Attaches `answer` to the request waiting under `id`. An id that is not
    /// waiting (unknown, already answered, or already taken out) is refused and
    /// the table is left as it was.
    pub fn complete(&mut self, id: &str, answer: Vec<u8>) -> (r: Result<(), UnknownCorrelationId>)
        requires
            old(self).wf(),
        ensures
            final(self).wf(),
            r is Ok <==> is_waiting(old(self)@, id@),
            r is Ok ==> final(self)@ == complete_state(old(self)@, id@, answer@),
            r is Err ==> final(self)@ == old(self)@,
    {
        match self.position(id) {
            None => Err(UnknownCorrelationId),
            Some(i) => {
                if self.pending[i].answer.is_some() {
                    return Err(UnknownCorrelationId);
                }
                let ghost before = self@;
                let ghost a = answer@;
                self.pending[i].answer = Some(answer);
                assert(self@ =~= complete_state(before, id@, a));
                assert(unique_ids(self@)) by {
                    assert forall|x: int, y: int| 0 <= x < y < self@.len() implies self@[x].id
                        != self@[y].id by {
                        assert(self@[x].id == before[x].id);
                        assert(self@[y].id == before[y].id);
                    }
                }
                Ok(())
            },
        }
    }

    /// Ends the wait on `id`: takes the request out of the table and hands back
    /// its answer, or `Timeout` if none had come (or no such request was there).
    pub fn finish(&mut self, id: &str) -> (r: Result<Vec<u8>, Timeout>)
        requires
            old(self).wf(),
        ensures
            final(self).wf(),
            final(self)@ == finish_state(old(self)@, id@),
            match r {
                Ok(a) => finish_answer(old(self)@, id@) == Some(a@),
                Err(_) => finish_answer(old(self)@, id@) is None,
            },
    {
        match self.position(id) {
            None => Err(Timeout),
            Some(i) => {
                let ghost before = self@;
                let entry = self.pending.remove(i);
                assert(self@ =~= before.remove(i as int));
                assert(unique_ids(self@)) by {
                    assert forall|x: int, y: int| 0 <= x < y < self@.len() implies self@[x].id
                        != self@[y].id by {
                        let xs = if x < i { x } else { x + 1 };
                        let ys = if y < i { y } else { y + 1 };
                        assert(self@[x] == before[xs]);
                        assert(self@[y] == before[ys]);
                    }
                }
                match entry.answer {
                    Some(a) => Ok(a),
                    None => Err(Timeout),
                }
            },
        }
    }

    /// Removes every request opened `ttl` or more before `now`, answered or
    /// not, and returns how many went.
    pub fn expire(&mut self, now: u64, ttl: u64) -> (r: usize)
        requires
            old(self).wf(),
        ensures
            final(self).wf(),
            final(self)@ == live_entries(old(self)@, now, ttl),
            r == old(self)@.len() - final(self)@.len(),
    {
        let ghost orig = self@;
        let n0 = self.pending.len();
        assert(orig.len() == n0);
        let mut i: usize = 0;
        let mut removed: usize = 0;
        while i < self.pending.len()
            invariant
                i <= self.pending@.len(),
                removed + self.pending@.len() == orig.len(),
                orig.len() <= usize::MAX,
                self@.subrange(0, i as int) == live_entries(
                    orig.subrange(0, (i + removed) as int),
                    now,
                    ttl,
                ),
                self@.subrange(i as int, self@.len() as int) == orig.subrange(
                    (i + removed) as int,
                    orig.len() as int,
                ),
            decreases self.pending@.len() - i,
        {
            let ghost j = (i + removed) as int;
            let ghost before = self@;
            assert(orig.subrange(0, j + 1).drop_last() =~= orig.subrange(0, j));
            assert(before[i as int] == orig[j]) by {
                assert(before.subrange(i as int, before.len() as int)[0] == before[i as int]);
            }
            assert(orig.subrange(0, j + 1).last() == orig[j]);
            if self.pending[i].created_at as u128 + ttl as u128 <= now as u128 {
                self.pending.remove(i);
                assert(self@ =~= before.remove(i as int));
                assert(self@.subrange(i as int, self@.len() as int) =~= before.subrange(
                    i + 1,
                    before.len() as int,
                ));
                assert(self@.subrange(0, i as int) =~= before.subrange(0, i as int));
                assert(self@.subrange(i as int, self@.len() as int) =~= orig.subrange(
                    j + 1,
                    orig.len() as int,
                )) by {
                    lemma_tails_agree(before, orig, i as int, j);
                }
                removed = removed + 1;
            } else {
                assert(self@.subrange(0, i + 1) =~= before.subrange(0, i as int).push(before[i as int]));
                assert(self@.subrange(i + 1, self@.len() as int) =~= orig.subrange(
                    j + 1,
                    orig.len() as int,
                )) by {
                    lemma_tails_agree(before, orig, i as int, j);
                }
                i = i + 1;
            }
        }
        assert(self@ =~= self@.subrange(0, i as int));
        assert(orig.subrange(0, orig.len() as int) =~= orig);
        proof {
            lemma_live_entries_from(orig, now, ttl);
        }
        removed
    }
}

} // verus!
