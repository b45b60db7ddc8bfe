//! The smaller parts of a panel's life: what is still to be drained, who is told of events, how a
//! panel comes to be and where it is kept.

use crate::plugin_api::{
    is_live, message_of, Error, InstanceKey, LeaseState, MountKey, ScopeHandle, StopReason, Token,
};
use std::collections::HashMap;
use vstd::prelude::*;

verus! {

// ---- draining -----------------------------------------------------------------------------

/// How much may be done in one turn.
#[derive(Clone, Copy, Debug, PartialEq, Eq, Structural)]
pub struct PollBudget {
    pub max_events: usize,
    pub max_duration_ms: u64,
}

impl Default for PollBudget {
    fn default() -> (r: Self)
        ensures
            r == (PollBudget { max_events: 64, max_duration_ms: 2 }),
    {
        PollBudget { max_events: 64, max_duration_ms: 2 }
    }
}

impl PollBudget {
    /// Whether another event fits into the turn.
    pub fn allows(&self, done: usize, spent_ms: u64) -> (r: bool)
        ensures
            r == (done < self.max_events && spent_ms < self.max_duration_ms),
    {
        done < self.max_events && spent_ms < self.max_duration_ms
    }
}

#[derive(Clone, Copy, Debug, PartialEq, Eq, Structural)]
pub enum DrainState {
    Pending { callbacks: usize, cleanup: usize, native: usize },
    Complete,
}

/// What has begun and not yet ended. Tokens are given out once.
pub struct DrainLedger {
    pub next: u64,
    pub callbacks: Vec<Token>,
    pub cleanup: Vec<Token>,
    pub native: Vec<Token>,
}

/// The tokens without one of them.
pub open spec fn tokens_without(ts: Seq<Token>, t: Token) -> Seq<Token>
    decreases ts.len(),
{
    if ts.len() == 0 {
        ts
    } else if ts.last() == t {
        tokens_without(ts.drop_last(), t)
    } else {
        tokens_without(ts.drop_last(), t).push(ts.last())
    }
}

fn drop_token(ts: &mut Vec<Token>, t: Token) -> (r: bool)
    ensures
        final(ts)@ == tokens_without(old(ts)@, t),
        r == old(ts)@.contains(t),
{
    let ghost all = ts@;
    let mut out: Vec<Token> = Vec::new();
    let mut found = false;
    let n: usize = ts.len();
    for i in 0..n
        invariant
            n == ts.len(),
            all == ts@,
            all == old(ts)@,
            out@ == tokens_without(all.take(i as int), t),
            found == exists|j: int| 0 <= j < i && #[trigger] all[j] == t,
    {
        assert(all.take(i + 1).drop_last() =~= all.take(i as int));
        if ts[i] == t {
            found = true;
            assert(all[i as int] == t);
        } else {
            out.push(ts[i]);
        }
    }
    assert(all.take(n as int) =~= all);
    *ts = out;
    found
}

impl DrainLedger {
    pub fn new() -> (r: Self)
        ensures
            r.next == 0,
            r.callbacks@ == Seq::<Token>::empty(),
            r.cleanup@ == Seq::<Token>::empty(),
            r.native@ == Seq::<Token>::empty(),
    {
        DrainLedger { next: 0, callbacks: Vec::new(), cleanup: Vec::new(), native: Vec::new() }
    }

    fn allocate(&mut self) -> (r: Result<Token, Error>)
        ensures
            final(self).callbacks@ == old(self).callbacks@,
            final(self).cleanup@ == old(self).cleanup@,
            final(self).native@ == old(self).native@,
            old(self).next < u64::MAX ==> r == Ok::<Token, Error>(Token((old(self).next + 1) as u64))
                && final(self).next == old(self).next + 1,
            old(self).next == u64::MAX ==> r == Err::<Token, Error>(Error::Exhausted)
                && final(self).next == old(self).next,
    {
        if self.next == u64::MAX {
            return Err(Error::Exhausted);
        }
        self.next = self.next + 1;
        Ok(Token(self.next))
    }

    /// A callback begins. Returns the token by which it ends.
    pub fn enter_callback(&mut self) -> (r: Result<Token, Error>)
        ensures
            r is Ok <==> old(self).next < u64::MAX,
            r matches Err(e) ==> e == Error::Exhausted && final(self).callbacks@ == old(self).callbacks@
                && final(self).next == old(self).next,
            r matches Ok(t) ==> t.0 == old(self).next + 1 && final(self).next == t.0
                && final(self).callbacks@ == old(self).callbacks@.push(t),
            final(self).cleanup@ == old(self).cleanup@,
            final(self).native@ == old(self).native@,
    {
        match self.allocate() {
            Ok(t) => {
                self.callbacks.push(t);
                Ok(t)
            },
            Err(e) => Err(e),
        }
    }

    /// A callback ended.
    pub fn leave_callback(&mut self, token: Token) -> (r: bool)
        ensures
            r == old(self).callbacks@.contains(token),
            final(self).callbacks@ == tokens_without(old(self).callbacks@, token),
            final(self).next == old(self).next,
            final(self).cleanup@ == old(self).cleanup@,
            final(self).native@ == old(self).native@,
    {
        drop_token(&mut self.callbacks, token)
    }

    /// A cleanup begins. Returns the token by which it ends.
    pub fn begin_cleanup(&mut self) -> (r: Result<Token, Error>)
        ensures
            r is Ok <==> old(self).next < u64::MAX,
            r matches Err(e) ==> e == Error::Exhausted && final(self).cleanup@ == old(self).cleanup@
                && final(self).next == old(self).next,
            r matches Ok(t) ==> t.0 == old(self).next + 1 && final(self).next == t.0
                && final(self).cleanup@ == old(self).cleanup@.push(t),
            final(self).callbacks@ == old(self).callbacks@,
            final(self).native@ == old(self).native@,
    {
        match self.allocate() {
            Ok(t) => {
                self.cleanup.push(t);
                Ok(t)
            },
            Err(e) => Err(e),
        }
    }

    /// A cleanup ended.
    pub fn end_cleanup(&mut self, token: Token) -> (r: bool)
        ensures
            r == old(self).cleanup@.contains(token),
            final(self).cleanup@ == tokens_without(old(self).cleanup@, token),
            final(self).next == old(self).next,
            final(self).callbacks@ == old(self).callbacks@,
            final(self).native@ == old(self).native@,
    {
        drop_token(&mut self.cleanup, token)
    }

    /// An operation of the system begins. Returns its token.
    pub fn register_native(&mut self) -> (r: Result<Token, Error>)
        ensures
            r is Ok <==> old(self).next < u64::MAX,
            r matches Err(e) ==> e == Error::Exhausted && final(self).native@ == old(self).native@
                && final(self).next == old(self).next,
            r matches Ok(t) ==> t.0 == old(self).next + 1 && final(self).next == t.0
                && final(self).native@ == old(self).native@.push(t),
            final(self).callbacks@ == old(self).callbacks@,
            final(self).cleanup@ == old(self).cleanup@,
    {
        match self.allocate() {
            Ok(t) => {
                self.native.push(t);
                Ok(t)
            },
            Err(e) => Err(e),
        }
    }

    /// An operation of the system ended. Returns whether it was waited for.
    pub fn record_native_completion(&mut self, token: Token) -> (r: bool)
        ensures
            r == old(self).native@.contains(token),
            final(self).native@ == tokens_without(old(self).native@, token),
            final(self).next == old(self).next,
            final(self).callbacks@ == old(self).callbacks@,
            final(self).cleanup@ == old(self).cleanup@,
    {
        drop_token(&mut self.native, token)
    }

    /// How much has not ended.
    pub fn poll(&self) -> (r: DrainState)
        ensures
            r == if self.callbacks.len() == 0 && self.cleanup.len() == 0 && self.native.len() == 0 {
                DrainState::Complete
            } else {
                DrainState::Pending {
                    callbacks: self.callbacks.len(),
                    cleanup: self.cleanup.len(),
                    native: self.native.len(),
                }
            },
    {
        if self.callbacks.len() == 0 && self.cleanup.len() == 0 && self.native.len() == 0 {
            DrainState::Complete
        } else {
            DrainState::Pending {
                callbacks: self.callbacks.len(),
                cleanup: self.cleanup.len(),
                native: self.native.len(),
            }
        }
    }
}

/// What ended is not waited for any more, and is not recorded a second time.
pub proof fn what_ended_is_not_waited_for(ts: Seq<Token>, t: Token)
    ensures
        !tokens_without(ts, t).contains(t),
        tokens_without(tokens_without(ts, t), t) == tokens_without(ts, t),
    decreases ts.len(),
{
    if ts.len() > 0 {
        let front = ts.drop_last();
        what_ended_is_not_waited_for(front, t);
        let rest = tokens_without(front, t);
        if ts.last() != t {
            let out = rest.push(ts.last());
            assert(out.drop_last() =~= rest);
            if out.contains(t) {
                let i = out.index_of(t);
                assert(rest[i] == t);
                assert(rest.contains(t));
            }
        }
    }
}

// ---- events -------------------------------------------------------------------------------

/// Someone who is told of events. `C` is how they are told.
struct EventEntry<C> {
    id: u64,
    generation: u64,
    owner: ScopeHandle,
    callback: Option<C>,
}

/// Who is told of events.
pub struct EventSink<C> {
    next_id: u64,
    entries: Vec<EventEntry<C>>,
}

/// The model of one who is told of events.
pub struct Listener<C> {
    pub id: u64,
    pub generation: u64,
    pub owner: ScopeHandle,
    /// None while they are being told of one.
    pub callback: Option<C>,
}

/// What a registration is known by.
#[derive(Clone, Copy, Debug, PartialEq, Eq, Structural)]
pub struct EventRegistration {
    pub id: u64,
    pub generation: u64,
}

pub open spec fn listener_at<C>(ls: Seq<Listener<C>>, id: u64, i: int) -> bool {
    0 <= i < ls.len() && ls[i].id == id
}

pub open spec fn has_listener<C>(ls: Seq<Listener<C>>, id: u64) -> bool {
    exists|i: int| listener_at(ls, id, i)
}

/// Ids grow, and are below the next one.
pub open spec fn listeners_ok<C>(ls: Seq<Listener<C>>, next: u64) -> bool {
    &&& forall|i: int| 0 <= i < ls.len() ==> (#[trigger] ls[i]).id < next
    &&& forall|i: int, j: int| 0 <= i < j < ls.len() ==> (#[trigger] ls[i]).id < (#[trigger] ls[j]).id
}

/// The listener `id`.
pub open spec fn listener_of<C>(ls: Seq<Listener<C>>, id: u64) -> Listener<C> {
    ls[choose|i: int| listener_at(ls, id, i)]
}

/// The listeners without `id`.
pub open spec fn listeners_without<C>(ls: Seq<Listener<C>>, id: u64) -> Seq<Listener<C>>
    decreases ls.len(),
{
    if ls.len() == 0 {
        ls
    } else if ls.last().id == id {
        listeners_without(ls.drop_last(), id)
    } else {
        listeners_without(ls.drop_last(), id).push(ls.last())
    }
}

/// The listeners with the callback of `id` replaced.
pub open spec fn with_callback<C>(ls: Seq<Listener<C>>, id: u64, c: Option<C>) -> Seq<Listener<C>> {
    Seq::new(
        ls.len(),
        |i: int|
            if ls[i].id == id {
                Listener { callback: c, ..ls[i] }
            } else {
                ls[i]
            },
    )
}

/// The scope that the listener belongs to is there, open, and of the generation that it was.
pub open spec fn still_owned<C>(l: Listener<C>, now: Option<LeaseState>) -> bool {
    is_live(l.owner, now) && l.owner.generation == l.generation
}

proof fn lemma_listener_of<C>(ls: Seq<Listener<C>>, next: u64, id: u64, i: int)
    requires
        listeners_ok(ls, next),
        listener_at(ls, id, i),
    ensures
        has_listener(ls, id),
        listener_of(ls, id) == ls[i],
        forall|j: int| 0 <= j < ls.len() && (#[trigger] ls[j]).id == id ==> j == i,
{
    let k = choose|k: int| listener_at(ls, id, k);
    assert(listener_at(ls, id, k));
    assert forall|j: int| 0 <= j < ls.len() && (#[trigger] ls[j]).id == id implies j == i by {
        if j < i {
            assert(ls[j].id < ls[i].id);
        } else if i < j {
            assert(ls[i].id < ls[j].id);
        }
    }
}

proof fn lemma_listeners_without<C>(ls: Seq<Listener<C>>, next: u64, id: u64)
    requires
        listeners_ok(ls, next),
    ensures
        listeners_ok(listeners_without(ls, id), next),
        !has_listener(listeners_without(ls, id), id),
        forall|x: int|
            0 <= x < listeners_without(ls, id).len() ==> ls.contains(
                #[trigger] listeners_without(ls, id)[x],
            ),
        !has_listener(ls, id) ==> listeners_without(ls, id) == ls,
    decreases ls.len(),
{
    if ls.len() > 0 {
        let front = ls.drop_last();
        lemma_listeners_without(front, next, id);
        let rest = listeners_without(front, id);
        let out = listeners_without(ls, id);
        assert forall|x: int| 0 <= x < out.len() implies ls.contains(#[trigger] out[x]) by {
            if x < rest.len() {
                assert(rest[x] == out[x]);
                assert(front.contains(rest[x]));
                assert(ls[front.index_of(rest[x])] == out[x]);
            } else {
                assert(ls[ls.len() - 1] == out[x]);
            }
        }
        assert forall|x: int| 0 <= x < out.len() implies (#[trigger] out[x]).id < next by {
            assert(ls.contains(out[x]));
            assert(ls[ls.index_of(out[x])].id < next);
        }
        assert forall|x: int, y: int| 0 <= x < y < out.len() implies (#[trigger] out[x]).id < (
        #[trigger] out[y]).id by {
            if y == rest.len() {
                assert(front.contains(rest[x]));
                let m = front.index_of(rest[x]);
                assert(ls[m].id < ls[ls.len() - 1].id);
            }
        }
        assert(!has_listener(out, id)) by {
            if has_listener(out, id) {
                let x = choose|x: int| listener_at(out, id, x);
                if x < rest.len() {
                    assert(listener_at(rest, id, x));
                }
            }
        }
        if !has_listener(ls, id) {
            assert(!has_listener(front, id)) by {
                if has_listener(front, id) {
                    let x = choose|x: int| listener_at(front, id, x);
                    assert(listener_at(ls, id, x));
                }
            }
            assert(listener_at(ls, ls.last().id, ls.len() - 1));
            assert(ls.last().id != id);
            assert(out =~= ls);
        }
    }
}

impl<C> EventSink<C> {
    /// Who is told of events, in the order in which they registered.
    pub closed spec fn listeners(&self) -> Seq<Listener<C>> {
        Seq::new(
            self.entries.len() as nat,
            |i: int|
                Listener {
                    id: self.entries@[i].id,
                    generation: self.entries@[i].generation,
                    owner: self.entries@[i].owner,
                    callback: self.entries@[i].callback,
                },
        )
    }

    /// The id that the next one gets.
    pub closed spec fn next(&self) -> u64 {
        self.next_id
    }

    pub open spec fn wf(&self) -> bool {
        listeners_ok(self.listeners(), self.next())
    }

    pub fn new() -> (r: Self)
        ensures
            r.wf(),
            r.listeners() == Seq::<Listener<C>>::empty(),
            r.next() == 1,
    {
        let r = EventSink { next_id: 1, entries: Vec::new() };
        assert(r.listeners() =~= Seq::<Listener<C>>::empty());
        r
    }

    pub fn len(&self) -> (r: usize)
        ensures
            r == self.listeners().len(),
    {
        self.entries.len()
    }

    pub fn is_empty(&self) -> (r: bool)
        ensures
            r == (self.listeners().len() == 0),
    {
        self.entries.len() == 0
    }

    /// Adds someone who is told of events as long as the scope they belong to is open.
    pub fn register(&mut self, owner: ScopeHandle, now: Option<LeaseState>, callback: C) -> (r: Result<
        EventRegistration,
        Error,
    >)
        requires
            old(self).wf(),
        ensures
            final(self).wf(),
            match r {
                Ok(reg) => {
                    &&& is_live(owner, now)
                    &&& reg.generation == owner.generation
                    &&& reg.id == old(self).next()
                    &&& final(self).next() == old(self).next() + 1
                    &&& final(self).listeners() == old(self).listeners().push(
                        Listener {
                            id: reg.id,
                            generation: reg.generation,
                            owner,
                            callback: Some(callback),
                        },
                    )
                },
                Err(e) => {
                    &&& final(self).listeners() == old(self).listeners()
                    &&& final(self).next() == old(self).next()
                    &&& e == if is_live(owner, now) {
                        Error::Exhausted
                    } else {
                        Error::Closed
                    }
                    &&& e == Error::Exhausted ==> old(self).next() == u64::MAX
                },
            },
    {
        let generation: u64 = match owner.generation(now) {
            Ok(g) => g,
            Err(e) => {
                return Err(e);
            },
        };
        let id: u64 = self.next_id;
        if id == u64::MAX {
            return Err(Error::Exhausted);
        }
        let ghost before = self.listeners();
        self.next_id = id + 1;
        self.entries.push(EventEntry { id, generation, owner, callback: Some(callback) });
        proof {
            let new = Listener { id, generation, owner, callback: Some(callback) };
            assert(self.listeners() =~= before.push(new));
        }
        Ok(EventRegistration { id, generation })
    }

    /// The ids of those to tell of an event, and the scope that each one belongs to.
    pub fn to_tell(&self) -> (r: Vec<(u64, ScopeHandle)>)
        ensures
            r.len() == self.listeners().len(),
            forall|i: int|
                0 <= i < r.len() ==> #[trigger] r@[i] == (
                    self.listeners()[i].id,
                    self.listeners()[i].owner,
                ),
    {
        let mut out: Vec<(u64, ScopeHandle)> = Vec::new();
        let n: usize = self.entries.len();
        for i in 0..n
            invariant
                n == self.entries.len(),
                out.len() == i,
                forall|j: int|
                    0 <= j < i ==> #[trigger] out@[j] == (
                        self.listeners()[j].id,
                        self.listeners()[j].owner,
                    ),
        {
            out.push((self.entries[i].id, self.entries[i].owner));
        }
        out
    }

    fn find(&self, id: u64) -> (r: Option<usize>)
        ensures
            match r {
                Some(i) => listener_at(self.listeners(), id, i as int),
                None => !has_listener(self.listeners(), id),
            },
    {
        let n: usize = self.entries.len();
        for i in 0..n
            invariant
                n == self.entries.len(),
                forall|j: int| 0 <= j < i ==> !#[trigger] listener_at(self.listeners(), id, j),
        {
            if self.entries[i].id == id {
                return Some(i);
            }
        }
        None
    }

    fn drop_entry(&mut self, id: u64)
        requires
            old(self).wf(),
        ensures
            final(self).wf(),
            final(self).next() == old(self).next(),
            final(self).listeners() == listeners_without(old(self).listeners(), id),
    {
        let ghost all = self.listeners();
        let mut rest: Vec<EventEntry<C>> = Vec::new();
        std::mem::swap(&mut rest, &mut self.entries);
        let ghost list = rest@;
        let n: usize = rest.len();
        let ghost start = self.listeners();
        assert(start =~= Seq::<Listener<C>>::empty());
        assert(list.skip(0) =~= list);
        assert(all.take(0) =~= Seq::<Listener<C>>::empty());
        for i in 0..n
            invariant
                n == list.len(),
                n == all.len(),
                rest@ == list.skip(i as int),
                self.next() == old(self).next(),
                forall|j: int|
                    0 <= j < n ==> #[trigger] all[j] == (Listener {
                        id: list[j].id,
                        generation: list[j].generation,
                        owner: list[j].owner,
                        callback: list[j].callback,
                    }),
                self.listeners() == listeners_without(all.take(i as int), id),
        {
            let ghost before = self.listeners();
            let e = rest.remove(0);
            proof {
                assert(e == list[i as int]);
                assert(rest@ =~= list.skip(i + 1));
                assert(all.take(i + 1).drop_last() =~= all.take(i as int));
                assert(all.take(i + 1).last() == all[i as int]);
            }
            if e.id != id {
                self.entries.push(e);
                assert(self.listeners() =~= before.push(all[i as int]));
            }
        }
        proof {
            assert(all.take(n as int) =~= all);
            lemma_listeners_without(all, old(self).next(), id);
        }
    }

    /// Takes the callback of one who is to be told of an event. One whose scope is gone is removed
    /// instead, and one who is just being told of an event is left alone. `now` is the state of
    /// the scope they belong to.
    pub fn take_callback(&mut self, id: u64, now: Option<LeaseState>) -> (r: Option<C>)
        requires
            old(self).wf(),
        ensures
            final(self).wf(),
            final(self).next() == old(self).next(),
            ({
                let ls = old(self).listeners();
                let l = listener_of(ls, id);
                if !has_listener(ls, id) {
                    r is None && final(self).listeners() == ls
                } else if !still_owned(l, now) {
                    r is None && final(self).listeners() == listeners_without(ls, id)
                } else {
                    r == l.callback && final(self).listeners() == with_callback(ls, id, None)
                }
            }),
    {
        let ghost ls = self.listeners();
        let i: usize = match self.find(id) {
            Some(i) => i,
            None => {
                return None;
            },
        };
        proof {
            lemma_listener_of(ls, self.next_id, id, i as int);
        }
        let owned: bool = match self.entries[i].owner.generation(now) {
            Ok(g) => g == self.entries[i].generation,
            Err(_) => false,
        };
        if !owned {
            self.drop_entry(id);
            return None;
        }
        let mut out: Option<C> = None;
        std::mem::swap(&mut out, &mut self.entries[i].callback);
        assert(self.listeners() =~= with_callback(ls, id, None));
        out
    }

    /// Gives the callback back once its owner was told. One who was removed meanwhile, or whose
    /// scope is gone, does not come back.
    pub fn return_callback(
        &mut self,
        id: u64,
        generation: u64,
        now: Option<LeaseState>,
        callback: C,
    )
        requires
            old(self).wf(),
        ensures
            final(self).wf(),
            final(self).next() == old(self).next(),
            ({
                let ls = old(self).listeners();
                final(self).listeners() == if has_listener(ls, id) && listener_of(ls, id).generation
                    == generation && still_owned(listener_of(ls, id), now) {
                    with_callback(ls, id, Some(callback))
                } else {
                    listeners_without(ls, id)
                }
            }),
    {
        let ghost ls = self.listeners();
        let i: usize = match self.find(id) {
            Some(i) => i,
            None => {
                proof {
                    lemma_listeners_without(ls, self.next_id, id);
                }
                return ;
            },
        };
        proof {
            lemma_listener_of(ls, self.next_id, id, i as int);
        }
        let owned: bool = match self.entries[i].owner.generation(now) {
            Ok(g) => g == generation,
            Err(_) => false,
        };
        if self.entries[i].generation != generation || !owned {
            self.drop_entry(id);
            return ;
        }
        self.entries[i].callback = Some(callback);
        assert(self.listeners() =~= with_callback(ls, id, Some(callback)));
    }

    /// Removes someone who was told of events.
    pub fn revoke(&mut self, registration: EventRegistration)
        requires
            old(self).wf(),
        ensures
            final(self).wf(),
            final(self).next() == old(self).next(),
            final(self).listeners() == listeners_without(old(self).listeners(), registration.id),
    {
        self.drop_entry(registration.id);
    }
}

/// One who is removed while being told of an event does not come back.
pub proof fn the_removed_do_not_come_back<C>(ls: Seq<Listener<C>>, next: u64, id: u64)
    requires
        listeners_ok(ls, next),
    ensures
        !has_listener(listeners_without(ls, id), id),
        listeners_without(listeners_without(ls, id), id) == listeners_without(ls, id),
{
    lemma_listeners_without(ls, next, id);
    lemma_listeners_without(listeners_without(ls, id), next, id);
}

// ---- coming to be -------------------------------------------------------------------------

#[derive(Debug, PartialEq, Eq)]
pub enum ActivationFailure {
    Create(String),
    Mount(String),
    Commit(String),
}

/// A panel that is coming to be. It is kept only once it was made and, where it should be, mounted.
pub struct ActivationTransaction<P> {
    pub panel: Option<P>,
    pub initial_mount: Option<MountKey>,
    pub committed: bool,
}

/// What has to be done to a panel that does not come to be: it is unmounted where it was mounted,
/// and told to stop.
pub struct Rollback<P> {
    pub panel: P,
    pub unmount: Option<MountKey>,
    pub reason: StopReason,
}

impl<P> ActivationTransaction<P> {
    pub fn begin() -> (r: Self)
        ensures
            r.panel is None,
            r.initial_mount is None,
            !r.committed,
    {
        ActivationTransaction { panel: None, initial_mount: None, committed: false }
    }

    /// Takes over what making the panel came to.
    pub fn create(&mut self, made: Result<P, Error>) -> (r: Result<(), ActivationFailure>)
        ensures
            match made {
                Ok(p) => r is Ok && *final(self) == (ActivationTransaction {
                    panel: Some(p),
                    ..*old(self)
                }),
                Err(e) => *final(self) == *old(self) && (r matches Err(f) && f
                    matches ActivationFailure::Create(m) && m@ == message_of(e)),
            },
    {
        match made {
            Ok(p) => {
                self.panel = Some(p);
                Ok(())
            },
            Err(e) => Err(ActivationFailure::Create(e.message())),
        }
    }

    /// Takes over what mounting the panel came to, where it is mounted at once.
    pub fn attach_initial(&mut self, mount: Option<MountKey>, mounted: Result<(), Error>) -> (r: Result<
        (),
        ActivationFailure,
    >)
        ensures
            match mount {
                None => r is Ok && *final(self) == *old(self),
                Some(key) => if old(self).panel is None {
                    *final(self) == *old(self) && (r matches Err(f) && f
                        matches ActivationFailure::Mount(m) && m@ == "panel has not been created"@)
                } else {
                    match mounted {
                        Ok(_) => r is Ok && *final(self) == (ActivationTransaction {
                            initial_mount: Some(key),
                            ..*old(self)
                        }),
                        Err(e) => *final(self) == *old(self) && (r matches Err(f) && f
                            matches ActivationFailure::Mount(m) && m@ == message_of(e)),
                    }
                },
            },
    {
        let key: MountKey = match mount {
            Some(key) => key,
            None => {
                return Ok(());
            },
        };
        if self.panel.is_none() {
            return Err(ActivationFailure::Mount("panel has not been created".to_owned()));
        }
        match mounted {
            Ok(_) => {
                self.initial_mount = Some(key);
                Ok(())
            },
            Err(e) => Err(ActivationFailure::Mount(e.message())),
        }
    }

    /// Hands the panel out for good.
    pub fn commit(self) -> (r: Result<(P, Option<MountKey>), ActivationFailure>)
        ensures
            match self.panel {
                Some(p) => r == Ok::<(P, Option<MountKey>), ActivationFailure>(
                    (p, self.initial_mount),
                ),
                None => r matches Err(f) && f matches ActivationFailure::Commit(m) && m@
                    == "panel has not been created"@,
            },
    {
        match self.panel {
            Some(p) => Ok((p, self.initial_mount)),
            None => Err(ActivationFailure::Commit("panel has not been created".to_owned())),
        }
    }

    /// Gives the panel up. Returns what has to be done to it; nothing a second time.
    pub fn rollback(&mut self) -> (r: Option<Rollback<P>>)
        ensures
            final(self).panel is None,
            final(self).committed == old(self).committed,
            match old(self).panel {
                Some(p) => {
                    &&& final(self).initial_mount is None
                    &&& r == Some(
                        Rollback {
                            panel: p,
                            unmount: old(self).initial_mount,
                            reason: StopReason::DependencyLost,
                        },
                    )
                },
                None => r is None && final(self).initial_mount == old(self).initial_mount,
            },
    {
        let mut panel: Option<P> = None;
        std::mem::swap(&mut panel, &mut self.panel);
        match panel {
            Some(p) => {
                let unmount: Option<MountKey> = self.initial_mount;
                self.initial_mount = None;
                Some(Rollback { panel: p, unmount, reason: StopReason::DependencyLost })
            },
            None => None,
        }
    }
}

// ---- where panels are kept ----------------------------------------------------------------

/// A panel that came to be.
pub struct InstanceRecord<P> {
    pub key: InstanceKey,
    pub provider_id: String,
    pub mount: Option<MountKey>,
    pub panel: P,
}

/// A panel that was taken out: it is unmounted where it was mounted, and told to stop.
pub struct Removed<P> {
    pub record: InstanceRecord<P>,
    pub unmount: Option<MountKey>,
    pub reason: StopReason,
}

/// The providers of panels by id, and the panels by id.
pub struct PanelStore<P, V> {
    providers: Vec<(String, V)>,
    instances: HashMap<u128, InstanceRecord<P>>,
}

pub open spec fn provider_at<V>(ps: Seq<(Seq<char>, V)>, id: Seq<char>, i: int) -> bool {
    0 <= i < ps.len() && ps[i].0 == id
}

pub open spec fn has_provider<V>(ps: Seq<(Seq<char>, V)>, id: Seq<char>) -> bool {
    exists|i: int| provider_at(ps, id, i)
}

impl<P, V> PanelStore<P, V> {
    /// The providers, in the order in which they registered.
    pub closed spec fn known(&self) -> Seq<(Seq<char>, V)> {
        Seq::new(
            self.providers.len() as nat,
            |i: int| (self.providers@[i].0@, self.providers@[i].1),
        )
    }

    /// The panels by id.
    pub closed spec fn panels(&self) -> Map<u128, InstanceRecord<P>> {
        self.instances@
    }

    pub fn new() -> (r: Self)
        ensures
            r.known() == Seq::<(Seq<char>, V)>::empty(),
            r.panels() == Map::<u128, InstanceRecord<P>>::empty(),
    {
        let r = PanelStore { providers: Vec::new(), instances: HashMap::new() };
        assert(r.known() =~= Seq::<(Seq<char>, V)>::empty());
        r
    }

    fn find(&self, id: &String) -> (r: Option<usize>)
        ensures
            match r {
                Some(i) => provider_at(self.known(), id@, i as int) && i < self.providers.len()
                    && forall|j: int| 0 <= j < i ==> !#[trigger] provider_at(self.known(), id@, j),
                None => !has_provider(self.known(), id@),
            },
    {
        let n: usize = self.providers.len();
        for i in 0..n
            invariant
                n == self.providers.len(),
                forall|j: int| 0 <= j < i ==> !#[trigger] provider_at(self.known(), id@, j),
        {
            if self.providers[i].0 == *id {
                return Some(i);
            }
        }
        None
    }

    /// Registers a provider. Each id is taken once.
    pub fn register_provider(&mut self, id: String, provider: V) -> (r: Result<(), Error>)
        ensures
            final(self).panels() == old(self).panels(),
            if has_provider(old(self).known(), id@) {
                r == Err::<(), Error>(Error::Duplicate) && final(self).known() == old(self).known()
            } else {
                r is Ok && final(self).known() == old(self).known().push((id@, provider))
            },
    {
        match self.find(&id) {
            Some(i) => {
                assert(provider_at(self.known(), id@, i as int));
                Err(Error::Duplicate)
            },
            None => {
                let ghost before = self.known();
                self.providers.push((id, provider));
                assert(self.known() =~= before.push((id@, provider)));
                Ok(())
            },
        }
    }

    /// The provider `id`.
    pub fn provider(&self, id: &str) -> (r: Option<&V>)
        ensures
            r is Some <==> has_provider(self.known(), id@),
            r matches Some(v) ==> exists|i: int| #[trigger] provider_at(self.known(), id@, i)
                && self.known()[i].1 == *v,
    {
        let wanted = id.to_owned();
        match self.find(&wanted) {
            Some(i) => {
                assert(provider_at(self.known(), id@, i as int));
                Some(&self.providers[i].1)
            },
            None => None,
        }
    }

    /// Keeps a panel. Each id is taken once.
    pub fn insert(&mut self, record: InstanceRecord<P>) -> (r: Result<(), Error>)
        ensures
            final(self).known() == old(self).known(),
            if old(self).panels().contains_key(record.key.id) {
                r == Err::<(), Error>(Error::Duplicate) && final(self).panels() == old(self).panels()
            } else {
                r is Ok && final(self).panels() == old(self).panels().insert(record.key.id, record)
            },
    {
        if self.instances.contains_key(&record.key.id) {
            return Err(Error::Duplicate);
        }
        let id: u128 = record.key.id;
        self.instances.insert(id, record);
        Ok(())
    }

    /// The panel `id`.
    pub fn instance(&self, id: u128) -> (r: Option<&InstanceRecord<P>>)
        ensures
            r is Some <==> self.panels().contains_key(id),
            r matches Some(p) ==> *p == self.panels()[id],
    {
        self.instances.get(&id)
    }

    /// Notes where a panel is mounted. Returns whether there is such a panel.
    pub fn set_mount(&mut self, id: u128, mount: Option<MountKey>) -> (r: bool)
        ensures
            r == old(self).panels().contains_key(id),
            final(self).known() == old(self).known(),
            final(self).panels() == if r {
                old(self).panels().insert(
                    id,
                    InstanceRecord { mount, ..old(self).panels()[id] },
                )
            } else {
                old(self).panels()
            },
    {
        match self.instances.remove(&id) {
            Some(record) => {
                let mut record = record;
                record.mount = mount;
                self.instances.insert(id, record);
                assert(self.panels() =~= old(self).panels().insert(
                    id,
                    InstanceRecord { mount, ..old(self).panels()[id] },
                ));
                true
            },
            None => {
                assert(self.panels() =~= old(self).panels());
                false
            },
        }
    }

    /// Takes a panel out. Returns it, and what has to be done to it.
    pub fn remove(&mut self, id: u128, reason: StopReason) -> (r: Option<Removed<P>>)
        ensures
            final(self).known() == old(self).known(),
            final(self).panels() == old(self).panels().remove(id),
            r is Some <==> old(self).panels().contains_key(id),
            r matches Some(x) ==> x.unmount == old(self).panels()[id].mount && x.reason == reason
                && x.record == (InstanceRecord { mount: None, ..old(self).panels()[id] }),
    {
        match self.instances.remove(&id) {
            Some(record) => {
                let mut record = record;
                let unmount: Option<MountKey> = record.mount;
                record.mount = None;
                assert(self.panels() =~= old(self).panels().remove(id));
                Some(Removed { record, unmount, reason })
            },
            None => {
                assert(self.panels() =~= old(self).panels().remove(id));
                None
            },
        }
    }
}

/// What has ended is struck off, and nothing else.
pub proof fn only_what_ended_is_struck_off(ts: Seq<Token>, t: Token)
    ensures
        tokens_without(ts, t) == ts.filter(|x: Token| x != t),
    decreases ts.len(),
{
    reveal(Seq::filter);
    if ts.len() > 0 {
        only_what_ended_is_struck_off(ts.drop_last(), t);
    }
}

/// A listener that leaves leaves the others in their order.
pub proof fn the_other_listeners_stay<C>(ls: Seq<Listener<C>>, id: u64)
    ensures
        listeners_without(ls, id) == ls.filter(|l: Listener<C>| l.id != id),
    decreases ls.len(),
{
    reveal(Seq::filter);
    if ls.len() > 0 {
        the_other_listeners_stay(ls.drop_last(), id);
    }
}

/// Only the listener that is told of an event has its callback taken or put back.
pub proof fn one_callback_changes<C>(ls: Seq<Listener<C>>, id: u64, c: Option<C>, i: int)
    requires
        0 <= i < ls.len(),
    ensures
        with_callback(ls, id, c).len() == ls.len(),
        ls[i].id == id ==> with_callback(ls, id, c)[i] == (Listener { callback: c, ..ls[i] }),
        ls[i].id != id ==> with_callback(ls, id, c)[i] == ls[i],
{
}

/// A listener is told of events while its scope is open, in the generation it listened in.
pub proof fn listeners_end_with_their_scope<C>(l: Listener<C>, now: Option<LeaseState>)
    ensures
        still_owned(l, now) <==> now is Some && now->0.open && now->0.id == l.owner.id
            && now->0.generation == l.owner.generation && l.owner.generation == l.generation,
{
}

/// A panel that was made is handed over with its mount once it is kept, and taken back with it
/// where it is not; without a panel there is nothing of either.
pub proof fn a_panel_is_kept_or_taken_back<P>(
    t: &mut ActivationTransaction<P>,
    made: Result<P, Error>,
    r: Result<(), ActivationFailure>,
    back: Option<Rollback<P>>,
)
    ensures
        call_ensures(ActivationTransaction::<P>::create, (t, made), r) ==> (made is Ok <==> r is Ok) && (
        made is Ok ==> final(t).panel == Some(made->Ok_0)) && (made is Err ==> *final(t) == *old(t)),
        call_ensures(ActivationTransaction::<P>::rollback, (t,), back) ==> final(t).panel is None && (
        back is Some <==> old(t).panel is Some) && (back is Some ==> back->0.panel == old(t).panel->0
            && back->0.unmount == old(t).initial_mount),
{
}

/// A panel is kept once under its number, and given back with its mount when it is removed.
pub proof fn a_panel_is_stored_once<P, V>(
    m: &mut PanelStore<P, V>,
    record: InstanceRecord<P>,
    r: Result<(), Error>,
    id: u128,
    reason: StopReason,
    out: Option<Removed<P>>,
)
    ensures
        call_ensures(PanelStore::<P, V>::insert, (m, record), r) ==> {
            &&& old(m).panels().contains_key(record.key.id) ==> r is Err && final(m).panels() == old(
                m,
            ).panels()
            &&& !old(m).panels().contains_key(record.key.id) ==> r is Ok && final(m).panels()
                == old(m).panels().insert(record.key.id, record)
        },
        call_ensures(PanelStore::<P, V>::remove, (m, id, reason), out) ==> {
            &&& !final(m).panels().contains_key(id)
            &&& out is Some <==> old(m).panels().contains_key(id)
            &&& out is Some ==> out->0.unmount == old(m).panels()[id].mount && out->0.reason == reason
                && out->0.record.panel == old(m).panels()[id].panel
        },
{
}

/// Draining is complete where nothing of any kind is waited for.
pub proof fn nothing_is_left_when_draining_is_complete(l: &DrainLedger, r: DrainState)
    requires
        call_ensures(DrainLedger::poll, (l,), r),
    ensures
        r is Complete <==> l.callbacks.len() == 0 && l.cleanup.len() == 0 && l.native.len() == 0,
        r matches DrainState::Pending { callbacks, cleanup, native } ==> callbacks == l.callbacks.len()
            && cleanup == l.cleanup.len() && native == l.native.len(),
{
}

} // verus!
