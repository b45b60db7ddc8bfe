//! Supervision of what scopes started: tasks and operations of the system. Nothing is forgotten
//! before it has ended.

use crate::plugin_api::{Error, ScopeId, Token};
use vstd::prelude::*;

verus! {

/// A task that a scope started.
#[derive(Clone, Copy, Debug, PartialEq, Eq, Structural)]
pub struct TaskRecord {
    pub token: Token,
    pub owner: ScopeId,
    pub generation: u64,
    /// It was asked to end.
    pub cancelled: bool,
    /// It said that it is done.
    pub completed: bool,
}

/// An operation of the system that a scope started.
#[derive(Clone, Copy, Debug, PartialEq, Eq, Structural)]
pub struct NativeRecord {
    pub token: Token,
    pub owner: ScopeId,
    pub generation: u64,
    pub completed: bool,
}

/// How far a scope's tasks have ended.
#[derive(Clone, Copy, Debug, PartialEq, Eq, Structural)]
pub struct DrainReport {
    pub joined: usize,
    pub pending: usize,
    pub native_pending: usize,
    pub quarantined: bool,
}

/// What is supervised. Tokens are given out once.
pub struct TaskSupervisor {
    pub next_token: u64,
    pub tasks: Vec<TaskRecord>,
    pub native: Vec<NativeRecord>,
}

/// Every token was given out, and none twice.
pub open spec fn tokens_ok(s: TaskSupervisor) -> bool {
    &&& forall|i: int|
        0 <= i < s.tasks.len() ==> (#[trigger] s.tasks@[i]).token.0 < s.next_token
    &&& forall|i: int|
        0 <= i < s.native.len() ==> (#[trigger] s.native@[i]).token.0 < s.next_token
    &&& forall|i: int, j: int|
        0 <= i < j < s.tasks.len() ==> (#[trigger] s.tasks@[i]).token.0 < (
        #[trigger] s.tasks@[j]).token.0
    &&& forall|i: int, j: int|
        0 <= i < j < s.native.len() ==> (#[trigger] s.native@[i]).token.0 < (
        #[trigger] s.native@[j]).token.0
}

pub open spec fn task_at(tasks: Seq<TaskRecord>, token: Token, i: int) -> bool {
    0 <= i < tasks.len() && tasks[i].token == token
}

pub open spec fn native_at(native: Seq<NativeRecord>, token: Token, i: int) -> bool {
    0 <= i < native.len() && native[i].token == token
}

pub open spec fn has_task(tasks: Seq<TaskRecord>, token: Token) -> bool {
    exists|i: int| task_at(tasks, token, i)
}

pub open spec fn has_native(native: Seq<NativeRecord>, token: Token) -> bool {
    exists|i: int| native_at(native, token, i)
}

/// The task can be let go: it said that it is done, and it has ended.
pub open spec fn is_over(t: TaskRecord, owner: ScopeId, ended: Seq<Token>) -> bool {
    t.owner == owner && t.completed && ended.contains(t.token)
}

/// The tasks that stay, in order.
pub open spec fn tasks_left(tasks: Seq<TaskRecord>, owner: ScopeId, ended: Seq<Token>) -> Seq<TaskRecord>
    decreases tasks.len(),
{
    if tasks.len() == 0 {
        tasks
    } else if is_over(tasks.last(), owner, ended) {
        tasks_left(tasks.drop_last(), owner, ended)
    } else {
        tasks_left(tasks.drop_last(), owner, ended).push(tasks.last())
    }
}

/// The tokens of the tasks that are let go, in order.
pub open spec fn tasks_over(tasks: Seq<TaskRecord>, owner: ScopeId, ended: Seq<Token>) -> Seq<Token>
    decreases tasks.len(),
{
    if tasks.len() == 0 {
        Seq::empty()
    } else if is_over(tasks.last(), owner, ended) {
        tasks_over(tasks.drop_last(), owner, ended).push(tasks.last().token)
    } else {
        tasks_over(tasks.drop_last(), owner, ended)
    }
}

/// The operations that stay, in order.
pub open spec fn native_left(native: Seq<NativeRecord>, owner: ScopeId) -> Seq<NativeRecord>
    decreases native.len(),
{
    if native.len() == 0 {
        native
    } else if native.last().owner == owner && native.last().completed {
        native_left(native.drop_last(), owner)
    } else {
        native_left(native.drop_last(), owner).push(native.last())
    }
}

/// How many tasks the scope has.
pub open spec fn tasks_of(tasks: Seq<TaskRecord>, owner: ScopeId) -> nat
    decreases tasks.len(),
{
    if tasks.len() == 0 {
        0
    } else {
        tasks_of(tasks.drop_last(), owner) + if tasks.last().owner == owner {
            1nat
        } else {
            0nat
        }
    }
}

/// How many operations the scope has.
pub open spec fn native_of(native: Seq<NativeRecord>, owner: ScopeId) -> nat
    decreases native.len(),
{
    if native.len() == 0 {
        0
    } else {
        native_of(native.drop_last(), owner) + if native.last().owner == owner {
            1nat
        } else {
            0nat
        }
    }
}

fn token_in(tokens: &Vec<Token>, t: Token) -> (r: bool)
    ensures
        r == tokens@.contains(t),
{
    let n: usize = tokens.len();
    for i in 0..n
        invariant
            n == tokens.len(),
            forall|j: int| 0 <= j < i ==> tokens@[j] != t,
    {
        if tokens[i] == t {
            return true;
        }
    }
    false
}

/// What one look at a scope's tasks showed.
pub struct Polled {
    pub report: DrainReport,
    /// The tasks to let go.
    pub joined: Vec<Token>,
}

/// What to do after one look.
#[derive(Clone, Copy, Debug, PartialEq, Eq, Structural)]
pub enum DrainStep {
    Done(DrainReport),
    /// Look again a little later; so many tasks were let go so far.
    Wait(usize),
}

impl TaskSupervisor {
    pub fn new() -> (r: Self)
        ensures
            r.next_token == 1,
            r.tasks@ == Seq::<TaskRecord>::empty(),
            r.native@ == Seq::<NativeRecord>::empty(),
            tokens_ok(r),
    {
        TaskSupervisor { next_token: 1, tasks: Vec::new(), native: Vec::new() }
    }

    /// Takes a new task of a scope in. Returns its token.
    pub fn spawn(&mut self, owner: ScopeId, generation: u64) -> (r: Result<Token, Error>)
        requires
            tokens_ok(*old(self)),
        ensures
            tokens_ok(*final(self)),
            final(self).native@ == old(self).native@,
            old(self).next_token < u64::MAX ==> {
                let token = Token(old(self).next_token);
                &&& r == Ok::<Token, Error>(token)
                &&& final(self).next_token == old(self).next_token + 1
                &&& final(self).tasks@ == old(self).tasks@.push(
                    TaskRecord { token, owner, generation, cancelled: false, completed: false },
                )
            },
            old(self).next_token == u64::MAX ==> r == Err::<Token, Error>(Error::Exhausted)
                && *final(self) == *old(self),
    {
        let token = Token(self.next_token);
        if self.next_token == u64::MAX {
            return Err(Error::Exhausted);
        }
        self.next_token = self.next_token + 1;
        self.tasks.push(
            TaskRecord { token, owner, generation, cancelled: false, completed: false },
        );
        Ok(token)
    }

    /// Takes a new operation of the system in. Returns its token.
    pub fn register_native(&mut self, owner: ScopeId, generation: u64) -> (r: Result<Token, Error>)
        requires
            tokens_ok(*old(self)),
        ensures
            tokens_ok(*final(self)),
            final(self).tasks@ == old(self).tasks@,
            old(self).next_token < u64::MAX ==> {
                let token = Token(old(self).next_token);
                &&& r == Ok::<Token, Error>(token)
                &&& final(self).next_token == old(self).next_token + 1
                &&& final(self).native@ == old(self).native@.push(
                    NativeRecord { token, owner, generation, completed: false },
                )
            },
            old(self).next_token == u64::MAX ==> r == Err::<Token, Error>(Error::Exhausted)
                && *final(self) == *old(self),
    {
        let token = Token(self.next_token);
        if self.next_token == u64::MAX {
            return Err(Error::Exhausted);
        }
        self.next_token = self.next_token + 1;
        self.native.push(NativeRecord { token, owner, generation, completed: false });
        Ok(token)
    }

    fn find_task(&self, token: Token) -> (r: Option<usize>)
        ensures
            match r {
                Some(i) => task_at(self.tasks@, token, i as int),
                None => !has_task(self.tasks@, token),
            },
    {
        let n: usize = self.tasks.len();
        for i in 0..n
            invariant
                n == self.tasks.len(),
                forall|j: int| 0 <= j < i ==> !#[trigger] task_at(self.tasks@, token, j),
        {
            if self.tasks[i].token == token {
                return Some(i);
            }
        }
        None
    }

    fn find_native(&self, token: Token) -> (r: Option<usize>)
        ensures
            match r {
                Some(i) => native_at(self.native@, token, i as int),
                None => !has_native(self.native@, token),
            },
    {
        let n: usize = self.native.len();
        for i in 0..n
            invariant
                n == self.native.len(),
                forall|j: int| 0 <= j < i ==> !#[trigger] native_at(self.native@, token, j),
        {
            if self.native[i].token == token {
                return Some(i);
            }
        }
        None
    }

    /// A task said that it is done.
    pub fn complete(&mut self, token: Token, generation: u64)
        requires
            tokens_ok(*old(self)),
        ensures
            tokens_ok(*final(self)),
            final(self).next_token == old(self).next_token,
            final(self).native@ == old(self).native@,
            final(self).tasks.len() == old(self).tasks.len(),
            forall|i: int|
                0 <= i < old(self).tasks.len() ==> #[trigger] final(self).tasks@[i] == if old(
                    self,
                ).tasks@[i].token == token && old(self).tasks@[i].generation == generation {
                    TaskRecord { completed: true, ..old(self).tasks@[i] }
                } else {
                    old(self).tasks@[i]
                },
    {
        if let Some(i) = self.find_task(token) {
            if self.tasks[i].generation == generation {
                self.tasks[i].completed = true;
            }
            proof {
                assert forall|j: int| 0 <= j < old(self).tasks.len() && j != i implies (
                #[trigger] old(self).tasks@[j]).token != token by {
                    if j < i {
                        assert(old(self).tasks@[j].token.0 < old(self).tasks@[i as int].token.0);
                    } else {
                        assert(old(self).tasks@[i as int].token.0 < old(self).tasks@[j].token.0);
                    }
                }
            }
        } else {
            assert forall|j: int| 0 <= j < old(self).tasks.len() implies (
            #[trigger] old(self).tasks@[j]).token != token by {
                if old(self).tasks@[j].token == token {
                    assert(task_at(old(self).tasks@, token, j));
                }
            }
        }
    }

    /// Records once that an operation of the system ended. What is said of another generation
    /// counts for nothing. Returns whether it was recorded.
    pub fn complete_native(&mut self, token: Token, generation: u64) -> (r: bool)
        requires
            tokens_ok(*old(self)),
        ensures
            tokens_ok(*final(self)),
            final(self).next_token == old(self).next_token,
            final(self).tasks@ == old(self).tasks@,
            final(self).native.len() == old(self).native.len(),
            r == (exists|i: int|
                0 <= i < old(self).native.len() && waits_for(
                    #[trigger] old(self).native@[i],
                    token,
                    generation,
                )),
            forall|i: int|
                0 <= i < old(self).native.len() ==> #[trigger] final(self).native@[i]
                    == if waits_for(old(self).native@[i], token, generation) {
                    NativeRecord { completed: true, ..old(self).native@[i] }
                } else {
                    old(self).native@[i]
                },
    {
        let i: usize = match self.find_native(token) {
            Some(i) => i,
            None => {
                assert forall|j: int| 0 <= j < old(self).native.len() implies !waits_for(
                    #[trigger] old(self).native@[j],
                    token,
                    generation,
                ) by {
                    if old(self).native@[j].token == token {
                        assert(native_at(old(self).native@, token, j));
                    }
                }
                return false;
            },
        };
        proof {
            assert forall|j: int| 0 <= j < old(self).native.len() && j != i implies (
            #[trigger] old(self).native@[j]).token != token by {
                if j < i {
                    assert(old(self).native@[j].token.0 < old(self).native@[i as int].token.0);
                } else {
                    assert(old(self).native@[i as int].token.0 < old(self).native@[j].token.0);
                }
            }
        }
        if self.native[i].generation != generation || self.native[i].completed {
            return false;
        }
        assert(waits_for(old(self).native@[i as int], token, generation));
        self.native[i].completed = true;
        true
    }

    /// Asks everything that a scope started to end. Returns the tokens of what is to be told.
    pub fn cancel_scope(&mut self, owner: ScopeId) -> (r: Vec<Token>)
        requires
            tokens_ok(*old(self)),
        ensures
            tokens_ok(*final(self)),
            final(self).next_token == old(self).next_token,
            final(self).native@ == old(self).native@,
            final(self).tasks.len() == old(self).tasks.len(),
            forall|i: int|
                0 <= i < old(self).tasks.len() ==> #[trigger] final(self).tasks@[i] == if old(
                    self,
                ).tasks@[i].owner == owner {
                    TaskRecord { cancelled: true, ..old(self).tasks@[i] }
                } else {
                    old(self).tasks@[i]
                },
            r@ == owned_tasks(old(self).tasks@, owner) + owned_native(old(self).native@, owner),
    {
        let mut out: Vec<Token> = Vec::new();
        let n: usize = self.tasks.len();
        let ghost all = self.tasks@;
        for i in 0..n
            invariant
                n == self.tasks.len(),
                n == all.len(),
                all == old(self).tasks@,
                self.next_token == old(self).next_token,
                self.native@ == old(self).native@,
                out@ == owned_tasks(all.take(i as int), owner),
                forall|j: int|
                    0 <= j < i ==> #[trigger] self.tasks@[j] == if all[j].owner == owner {
                        TaskRecord { cancelled: true, ..all[j] }
                    } else {
                        all[j]
                    },
                forall|j: int| i <= j < n ==> #[trigger] self.tasks@[j] == all[j],
        {
            assert(all.take(i + 1).drop_last() =~= all.take(i as int));
            if self.tasks[i].owner == owner {
                self.tasks[i].cancelled = true;
                out.push(self.tasks[i].token);
            }
        }
        assert(all.take(n as int) =~= all);
        let m: usize = self.native.len();
        let ghost natives = self.native@;
        assert(natives.take(0) =~= Seq::<NativeRecord>::empty());
        for i in 0..m
            invariant
                m == self.native.len(),
                natives == self.native@,
                out@ == owned_tasks(all, owner) + owned_native(natives.take(i as int), owner),
        {
            assert(natives.take(i + 1).drop_last() =~= natives.take(i as int));
            if self.native[i].owner == owner {
                out.push(self.native[i].token);
                assert(out@ =~= owned_tasks(all, owner) + owned_native(natives.take(i + 1), owner));
            }
        }
        assert(natives.take(m as int) =~= natives);
        out
    }

    /// Asks one task, or one operation, to end. Returns whether it is supervised.
    pub fn cancel(&mut self, token: Token) -> (r: bool)
        requires
            tokens_ok(*old(self)),
        ensures
            tokens_ok(*final(self)),
            r == (has_task(old(self).tasks@, token) || has_native(old(self).native@, token)),
            final(self).next_token == old(self).next_token,
            final(self).native@ == old(self).native@,
            final(self).tasks.len() == old(self).tasks.len(),
            forall|i: int|
                0 <= i < old(self).tasks.len() ==> #[trigger] final(self).tasks@[i] == if old(
                    self,
                ).tasks@[i].token == token {
                    TaskRecord { cancelled: true, ..old(self).tasks@[i] }
                } else {
                    old(self).tasks@[i]
                },
    {
        if let Some(i) = self.find_task(token) {
            self.tasks[i].cancelled = true;
            proof {
                assert forall|j: int| 0 <= j < old(self).tasks.len() && j != i implies (
                #[trigger] old(self).tasks@[j]).token != token by {
                    if j < i {
                        assert(old(self).tasks@[j].token.0 < old(self).tasks@[i as int].token.0);
                    } else {
                        assert(old(self).tasks@[i as int].token.0 < old(self).tasks@[j].token.0);
                    }
                }
            }
            return true;
        }
        assert forall|j: int| 0 <= j < old(self).tasks.len() implies (
        #[trigger] old(self).tasks@[j]).token != token by {
            if old(self).tasks@[j].token == token {
                assert(task_at(old(self).tasks@, token, j));
            }
        }
        self.find_native(token).is_some()
    }

    /// Whether a task with this token and generation is supervised.
    pub fn accepts_completion(&self, token: Token, generation: u64) -> (r: bool)
        requires
            tokens_ok(*self),
        ensures
            r == exists|i: int| task_at(self.tasks@, token, i) && (#[trigger] self.tasks@[i]).generation
                == generation,
    {
        match self.find_task(token) {
            Some(i) => {
                proof {
                    assert forall|j: int| task_at(self.tasks@, token, j) implies j == i by {
                        if j < i {
                            assert(self.tasks@[j].token.0 < self.tasks@[i as int].token.0);
                        } else if i < j {
                            assert(self.tasks@[i as int].token.0 < self.tasks@[j].token.0);
                        }
                    }
                }
                self.tasks[i].generation == generation
            },
            None => {
                assert forall|j: int| !task_at(self.tasks@, token, j) by {}
                false
            },
        }
    }

    /// Looks at what a scope started, without waiting: lets go of the tasks that said they are done
    /// and have ended, and of the operations that ended, and counts the rest. `ended` are the tasks
    /// that have ended.
    pub fn poll_scope(&mut self, owner: ScopeId, ended: &Vec<Token>) -> (r: Polled)
        requires
            tokens_ok(*old(self)),
        ensures
            tokens_ok(*final(self)),
            final(self).next_token == old(self).next_token,
            final(self).tasks@ == tasks_left(old(self).tasks@, owner, ended@),
            final(self).native@ == native_left(old(self).native@, owner),
            r.joined@ == tasks_over(old(self).tasks@, owner, ended@),
            r.report == (DrainReport {
                joined: r.joined.len(),
                pending: tasks_of(final(self).tasks@, owner) as usize,
                native_pending: native_of(final(self).native@, owner) as usize,
                quarantined: false,
            }),
    {
        let ghost tasks = self.tasks@;
        let ghost native = self.native@;
        let mut left: Vec<TaskRecord> = Vec::new();
        let mut joined: Vec<Token> = Vec::new();
        let mut pending: usize = 0;
        let n: usize = self.tasks.len();
        assert(tasks.take(0) =~= Seq::<TaskRecord>::empty());
        for i in 0..n
            invariant
                n == self.tasks.len(),
                tasks == self.tasks@,
                left@ == tasks_left(tasks.take(i as int), owner, ended@),
                joined@ == tasks_over(tasks.take(i as int), owner, ended@),
                pending == tasks_of(left@, owner),
                pending <= i,
        {
            assert(tasks.take(i + 1).drop_last() =~= tasks.take(i as int));
            let t: TaskRecord = self.tasks[i];
            if t.owner == owner && t.completed && token_in(ended, t.token) {
                joined.push(t.token);
            } else {
                let ghost before = left@;
                left.push(t);
                assert(left@.drop_last() =~= before);
                if t.owner == owner {
                    pending = pending + 1;
                }
            }
        }
        assert(tasks.take(n as int) =~= tasks);
        let mut natives: Vec<NativeRecord> = Vec::new();
        let mut native_pending: usize = 0;
        let m: usize = self.native.len();
        assert(native.take(0) =~= Seq::<NativeRecord>::empty());
        for i in 0..m
            invariant
                m == self.native.len(),
                native == self.native@,
                natives@ == native_left(native.take(i as int), owner),
                native_pending == native_of(natives@, owner),
                native_pending <= i,
        {
            assert(native.take(i + 1).drop_last() =~= native.take(i as int));
            let t: NativeRecord = self.native[i];
            if !(t.owner == owner && t.completed) {
                let ghost before = natives@;
                natives.push(t);
                assert(natives@.drop_last() =~= before);
                if t.owner == owner {
                    native_pending = native_pending + 1;
                }
            }
        }
        assert(native.take(m as int) =~= native);
        proof {
            lemma_tasks_left(tasks, owner, ended@);
            lemma_native_left(native, owner);
        }
        self.tasks = left;
        self.native = natives;
        proof {
            assert forall|i: int| 0 <= i < self.tasks.len() implies (
            #[trigger] self.tasks@[i]).token.0 < self.next_token by {
                assert(tasks.contains(self.tasks@[i]));
                let k = tasks.index_of(self.tasks@[i]);
                assert(old(self).tasks@[k].token.0 < self.next_token);
            }
            assert forall|i: int| 0 <= i < self.native.len() implies (
            #[trigger] self.native@[i]).token.0 < self.next_token by {
                assert(native.contains(self.native@[i]));
                let k = native.index_of(self.native@[i]);
                assert(old(self).native@[k].token.0 < self.next_token);
            }
        }
        let report = DrainReport {
            joined: joined.len(),
            pending,
            native_pending,
            quarantined: false,
        };
        Polled { report, joined }
    }
}

/// The operation is waited for, under this generation.
pub open spec fn waits_for(n: NativeRecord, token: Token, generation: u64) -> bool {
    n.token == token && n.generation == generation && !n.completed
}

/// The tokens of the scope's tasks, in order.
pub open spec fn owned_tasks(tasks: Seq<TaskRecord>, owner: ScopeId) -> Seq<Token>
    decreases tasks.len(),
{
    if tasks.len() == 0 {
        Seq::empty()
    } else if tasks.last().owner == owner {
        owned_tasks(tasks.drop_last(), owner).push(tasks.last().token)
    } else {
        owned_tasks(tasks.drop_last(), owner)
    }
}

/// The tokens of the scope's operations, in order.
pub open spec fn owned_native(native: Seq<NativeRecord>, owner: ScopeId) -> Seq<Token>
    decreases native.len(),
{
    if native.len() == 0 {
        Seq::empty()
    } else if native.last().owner == owner {
        owned_native(native.drop_last(), owner).push(native.last().token)
    } else {
        owned_native(native.drop_last(), owner)
    }
}

proof fn lemma_tasks_left(tasks: Seq<TaskRecord>, owner: ScopeId, ended: Seq<Token>)
    requires
        forall|i: int, j: int|
            0 <= i < j < tasks.len() ==> (#[trigger] tasks[i]).token.0 < (
            #[trigger] tasks[j]).token.0,
    ensures
        forall|i: int|
            0 <= i < tasks_left(tasks, owner, ended).len() ==> tasks.contains(
                #[trigger] tasks_left(tasks, owner, ended)[i],
            ),
        forall|i: int, j: int|
            0 <= i < j < tasks_left(tasks, owner, ended).len() ==> (#[trigger] tasks_left(
                tasks,
                owner,
                ended,
            )[i]).token.0 < (#[trigger] tasks_left(tasks, owner, ended)[j]).token.0,
    decreases tasks.len(),
{
    if tasks.len() > 0 {
        let front = tasks.drop_last();
        lemma_tasks_left(front, owner, ended);
        let rest = tasks_left(front, owner, ended);
        let out = tasks_left(tasks, owner, ended);
        assert forall|i: int| 0 <= i < out.len() implies tasks.contains(#[trigger] out[i]) by {
            if i < rest.len() {
                assert(front.contains(rest[i]));
                assert(tasks[front.index_of(rest[i])] == out[i]);
            } else {
                assert(tasks[tasks.len() - 1] == out[i]);
            }
        }
        assert forall|i: int, j: int| 0 <= i < j < out.len() implies (#[trigger] out[i]).token.0 < (
        #[trigger] out[j]).token.0 by {
            if j == rest.len() {
                assert(front.contains(rest[i]));
                let m = front.index_of(rest[i]);
                assert(tasks[m].token.0 < tasks[tasks.len() - 1].token.0);
            }
        }
    }
}

proof fn lemma_native_left(native: Seq<NativeRecord>, owner: ScopeId)
    requires
        forall|i: int, j: int|
            0 <= i < j < native.len() ==> (#[trigger] native[i]).token.0 < (
            #[trigger] native[j]).token.0,
    ensures
        forall|i: int|
            0 <= i < native_left(native, owner).len() ==> native.contains(
                #[trigger] native_left(native, owner)[i],
            ),
        forall|i: int, j: int|
            0 <= i < j < native_left(native, owner).len() ==> (#[trigger] native_left(
                native,
                owner,
            )[i]).token.0 < (#[trigger] native_left(native, owner)[j]).token.0,
    decreases native.len(),
{
    if native.len() > 0 {
        let front = native.drop_last();
        lemma_native_left(front, owner);
        let rest = native_left(front, owner);
        let out = native_left(native, owner);
        assert forall|i: int| 0 <= i < out.len() implies native.contains(#[trigger] out[i]) by {
            if i < rest.len() {
                assert(front.contains(rest[i]));
                assert(native[front.index_of(rest[i])] == out[i]);
            } else {
                assert(native[native.len() - 1] == out[i]);
            }
        }
        assert forall|i: int, j: int| 0 <= i < j < out.len() implies (#[trigger] out[i]).token.0 < (
        #[trigger] out[j]).token.0 by {
            if j == rest.len() {
                assert(front.contains(rest[i]));
                let m = front.index_of(rest[i]);
                assert(native[m].token.0 < native[native.len() - 1].token.0);
            }
        }
    }
}

/// What to do after one look at a scope's tasks: it is drained, its time is up, or it is looked at
/// again. `so_far` tasks were let go before.
pub fn drain_step(report: DrainReport, so_far: usize, time_is_up: bool) -> (r: DrainStep)
    requires
        so_far + report.joined <= usize::MAX,
    ensures
        ({
            let joined = (so_far + report.joined) as usize;
            r == if report.pending == 0 && report.native_pending == 0 {
                DrainStep::Done(DrainReport { joined, ..report })
            } else if time_is_up {
                DrainStep::Done(DrainReport { joined, quarantined: true, ..report })
            } else {
                DrainStep::Wait(joined)
            }
        }),
{
    let joined: usize = so_far + report.joined;
    if report.pending == 0 && report.native_pending == 0 {
        DrainStep::Done(DrainReport { joined, ..report })
    } else if time_is_up {
        DrainStep::Done(DrainReport { joined, quarantined: true, ..report })
    } else {
        DrainStep::Wait(joined)
    }
}

/// What two scopes' reports come to together.
pub fn both(a: DrainReport, b: DrainReport) -> (r: DrainReport)
    requires
        a.joined + b.joined <= usize::MAX,
        a.pending + b.pending <= usize::MAX,
        a.native_pending + b.native_pending <= usize::MAX,
    ensures
        r == (DrainReport {
            joined: (a.joined + b.joined) as usize,
            pending: (a.pending + b.pending) as usize,
            native_pending: (a.native_pending + b.native_pending) as usize,
            quarantined: a.quarantined || b.quarantined,
        }),
{
    DrainReport {
        joined: a.joined + b.joined,
        pending: a.pending + b.pending,
        native_pending: a.native_pending + b.native_pending,
        quarantined: a.quarantined || b.quarantined,
    }
}

/// A scope is only reported as drained when nothing that it started is left.
pub proof fn drained_means_nothing_is_left(report: DrainReport, so_far: usize, time_is_up: bool)
    requires
        so_far + report.joined <= usize::MAX,
        !report.quarantined,
    ensures
        forall|step: DrainStep|
            call_ensures(drain_step, (report, so_far, time_is_up), step) ==> (step
                matches DrainStep::Done(d) && !d.quarantined ==> report.pending == 0
                && report.native_pending == 0),
{
}

/// A task that did not say it is done, or has not ended, is not let go.
pub proof fn running_tasks_are_kept(tasks: Seq<TaskRecord>, owner: ScopeId, ended: Seq<Token>, i: int)
    requires
        0 <= i < tasks.len(),
        !is_over(tasks[i], owner, ended),
    ensures
        tasks_left(tasks, owner, ended).contains(tasks[i]),
    decreases tasks.len(),
{
    let front = tasks.drop_last();
    let rest = tasks_left(front, owner, ended);
    let out = tasks_left(tasks, owner, ended);
    if i == tasks.len() - 1 {
        assert(out[out.len() - 1] == tasks[i]);
    } else {
        assert(front[i] == tasks[i]);
        running_tasks_are_kept(front, owner, ended, i);
        assert(out[rest.index_of(tasks[i])] == tasks[i]);
    }
}

/// The tasks that are let go are those of the owner that said they are done and have ended; the
/// others stay, in their order.
pub proof fn ended_tasks_are_let_go(tasks: Seq<TaskRecord>, owner: ScopeId, ended: Seq<Token>)
    ensures
        tasks_left(tasks, owner, ended) == tasks.filter(
            |t: TaskRecord| !(t.owner == owner && t.completed && ended.contains(t.token)),
        ),
        tasks_over(tasks, owner, ended) == tasks.filter(
            |t: TaskRecord| t.owner == owner && t.completed && ended.contains(t.token),
        ).map_values(|t: TaskRecord| t.token),
    decreases tasks.len(),
{
    reveal(Seq::filter);
    let p = |t: TaskRecord| t.owner == owner && t.completed && ended.contains(t.token);
    let g = |t: TaskRecord| t.token;
    if tasks.len() > 0 {
        ended_tasks_are_let_go(tasks.drop_last(), owner, ended);
        let front = tasks.drop_last().filter(p);
        assert(front.push(tasks.last()).map_values(g) =~= front.map_values(g).push(g(tasks.last())));
    }
}

/// What the system does for an owner is forgotten once it is done.
pub proof fn done_work_of_the_system_is_forgotten(native: Seq<NativeRecord>, owner: ScopeId)
    ensures
        native_left(native, owner) == native.filter(
            |n: NativeRecord| !(n.owner == owner && n.completed),
        ),
    decreases native.len(),
{
    reveal(Seq::filter);
    if native.len() > 0 {
        done_work_of_the_system_is_forgotten(native.drop_last(), owner);
    }
}

/// The tasks of an owner are counted, and named in their order.
pub proof fn tasks_are_counted_by_owner(tasks: Seq<TaskRecord>, owner: ScopeId)
    ensures
        tasks_of(tasks, owner) == tasks.filter(|t: TaskRecord| t.owner == owner).len(),
        owned_tasks(tasks, owner) == tasks.filter(|t: TaskRecord| t.owner == owner).map_values(
            |t: TaskRecord| t.token,
        ),
    decreases tasks.len(),
{
    reveal(Seq::filter);
    let p = |t: TaskRecord| t.owner == owner;
    let g = |t: TaskRecord| t.token;
    if tasks.len() > 0 {
        tasks_are_counted_by_owner(tasks.drop_last(), owner);
        let front = tasks.drop_last().filter(p);
        assert(front.push(tasks.last()).map_values(g) =~= front.map_values(g).push(g(tasks.last())));
    }
}

/// What the system does for an owner is counted, and named in its order.
pub proof fn work_of_the_system_is_counted_by_owner(native: Seq<NativeRecord>, owner: ScopeId)
    ensures
        native_of(native, owner) == native.filter(|n: NativeRecord| n.owner == owner).len(),
        owned_native(native, owner) == native.filter(|n: NativeRecord| n.owner == owner).map_values(
            |n: NativeRecord| n.token,
        ),
    decreases native.len(),
{
    reveal(Seq::filter);
    let p = |n: NativeRecord| n.owner == owner;
    let g = |n: NativeRecord| n.token;
    if native.len() > 0 {
        work_of_the_system_is_counted_by_owner(native.drop_last(), owner);
        let front = native.drop_last().filter(p);
        assert(front.push(native.last()).map_values(g) =~= front.map_values(g).push(
            g(native.last()),
        ));
    }
}

/// A new task has a token of its own, is listed last under its owner, and is neither cancelled nor
/// done.
pub proof fn a_new_task_has_its_own_token(
    s: &mut TaskSupervisor,
    owner: ScopeId,
    generation: u64,
    r: Result<Token, Error>,
    i: int,
)
    requires
        call_ensures(TaskSupervisor::spawn, (s, owner, generation), r),
        tokens_ok(*old(s)),
        0 <= i < old(s).tasks.len(),
    ensures
        r is Err ==> *final(s) == *old(s),
        r matches Ok(t) ==> old(s).tasks@[i].token != t && final(s).tasks@.last() == (TaskRecord {
            token: t,
            owner,
            generation,
            cancelled: false,
            completed: false,
        }) && final(s).tasks@.drop_last() == old(s).tasks@,
{
    if r is Ok {
        assert(final(s).tasks@.drop_last() =~= old(s).tasks@);
    }
}

/// Draining goes on until nothing is left or the time is up, and is incomplete only then.
pub proof fn draining_ends_when_nothing_is_left(
    report: DrainReport,
    so_far: usize,
    time_is_up: bool,
    r: DrainStep,
)
    requires
        call_ensures(drain_step, (report, so_far, time_is_up), r),
        so_far + report.joined <= usize::MAX,
    ensures
        r is Done <==> time_is_up || (report.pending == 0 && report.native_pending == 0),
        r matches DrainStep::Done(d) ==> d.joined == so_far + report.joined && d.pending
            == report.pending && d.native_pending == report.native_pending,
        r matches DrainStep::Done(d) ==> report.pending > 0 || report.native_pending > 0
            ==> d.quarantined,
        r matches DrainStep::Wait(n) ==> n == so_far + report.joined,
{
}

} // verus!
