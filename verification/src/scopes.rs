//! Scopes: what lives how long. A scope keeps what has to be undone when it closes, and closing
//! one closes everything below it first.

use crate::plugin_api::{is_invalid, Error, LeaseState, ScopeHandle, ScopeId, ScopeLease};
use std::collections::HashMap;
use vstd::prelude::*;

verus! {

/// What a scope is for.
#[derive(Clone, Copy, Debug, PartialEq, Eq, Structural)]
pub enum ScopeKind {
    Root,
    Service,
    Provider,
    Instance,
    Mount,
    Gesture,
    Subscription,
    Window,
    Shell,
    Peek,
}

/// How far a scope is in its life.
#[derive(Clone, Copy, Debug, PartialEq, Eq, Structural)]
pub enum RuntimePhase {
    Open,
    Stopping,
    Draining,
    Quarantined,
    Disposed,
}

// ---- one scope ----------------------------------------------------------------------------

/// One scope. `U` is what it keeps to be carried out when it ends.
pub struct LocalScope<U> {
    id: ScopeId,
    generation: u64,
    phase: RuntimePhase,
    closing: bool,
    undos: Vec<U>,
    destroys: Vec<U>,
    errors: Vec<Error>,
}

/// The model of a [`LocalScope`].
pub struct ScopeModel<U> {
    pub id: ScopeId,
    pub generation: u64,
    pub phase: RuntimePhase,
    /// What it undoes is being carried out.
    pub closing: bool,
    /// What it undoes, in the order in which it was added.
    pub undos: Seq<U>,
    /// What it destroys in the end, in the order in which it was added.
    pub destroys: Seq<U>,
    pub errors: Seq<Error>,
}

impl<U> View for LocalScope<U> {
    type V = ScopeModel<U>;

    closed spec fn view(&self) -> ScopeModel<U> {
        ScopeModel {
            id: self.id,
            generation: self.generation,
            phase: self.phase,
            closing: self.closing,
            undos: self.undos@,
            destroys: self.destroys@,
            errors: self.errors@,
        }
    }
}

/// The scope can begin to close.
pub open spec fn can_close<U>(s: ScopeModel<U>) -> bool {
    !s.closing && (s.phase == RuntimePhase::Open || s.phase == RuntimePhase::Stopping)
}

/// An open scope stops.
pub open spec fn stopped<U>(s: ScopeModel<U>) -> ScopeModel<U> {
    if s.phase == RuntimePhase::Open {
        ScopeModel { phase: RuntimePhase::Stopping, ..s }
    } else {
        s
    }
}

/// The scope once its undos have run, with what went wrong in them.
pub open spec fn close_ended<U>(m: ScopeModel<U>, errors: Seq<Error>) -> ScopeModel<U> {
    ScopeModel { phase: RuntimePhase::Draining, closing: false, errors: m.errors + errors, ..m }
}

/// The scope once it was taken down, with what went wrong in that.
pub open spec fn destroy_ended<U>(m: ScopeModel<U>, errors: Seq<Error>) -> ScopeModel<U> {
    ScopeModel { phase: RuntimePhase::Disposed, errors: m.errors + errors, ..m }
}

/// The scope once it began to close: what it undoes was handed out.
pub open spec fn close_begun<U>(s: ScopeModel<U>) -> ScopeModel<U> {
    if can_close(s) {
        ScopeModel { closing: true, undos: Seq::empty(), ..stopped(s) }
    } else {
        s
    }
}

/// What is to be undone when the scope begins to close, in order: the latest first.
pub open spec fn to_undo<U>(s: ScopeModel<U>) -> Seq<U> {
    if can_close(s) {
        s.undos.reverse()
    } else {
        Seq::empty()
    }
}

/// What a request that came too late is answered, given what undoing it came to.
pub fn too_late(undone: Result<(), Error>) -> (r: Error)
    ensures
        r == match undone {
            Ok(_) => Error::Closed,
            Err(e) => e,
        },
{
    match undone {
        Ok(_) => Error::Closed,
        Err(e) => e,
    }
}

fn take_reversed<U>(list: &mut Vec<U>) -> (r: Vec<U>)
    ensures
        r@ == old(list)@.reverse(),
        final(list)@ == Seq::<U>::empty(),
{
    let ghost all = list@;
    let mut out: Vec<U> = Vec::new();
    while list.len() > 0
        invariant
            out.len() + list.len() == all.len(),
            list@ == all.take(list.len() as int),
            forall|j: int| 0 <= j < out.len() ==> #[trigger] out@[j] == all[all.len() - 1 - j],
        decreases list.len(),
    {
        let ghost n = list.len() as int;
        match list.pop() {
            Some(u) => {
                assert(u == all[n - 1]);
                assert(list@ =~= all.take(n - 1));
                out.push(u);
            },
            None => {},
        }
    }
    assert(out@ =~= all.reverse());
    assert(list@ =~= Seq::<U>::empty());
    out
}

impl<U> ScopeLease for LocalScope<U> {
    open spec fn state(&self) -> LeaseState {
        lease_of(self@)
    }

    fn id(&self) -> (r: ScopeId) {
        self.id
    }

    fn generation(&self) -> (r: u64) {
        self.generation
    }

    fn is_open(&self) -> (r: bool) {
        self.phase == RuntimePhase::Open
    }
}

impl<U> LocalScope<U> {
    pub fn new(id: ScopeId, generation: u64) -> (r: Self)
        ensures
            r@ == (ScopeModel {
                id,
                generation,
                phase: RuntimePhase::Open,
                closing: false,
                undos: Seq::<U>::empty(),
                destroys: Seq::<U>::empty(),
                errors: Seq::<Error>::empty(),
            }),
    {
        LocalScope {
            id,
            generation,
            phase: RuntimePhase::Open,
            closing: false,
            undos: Vec::new(),
            destroys: Vec::new(),
            errors: Vec::new(),
        }
    }

    pub fn phase(&self) -> (r: RuntimePhase)
        ensures
            r == self@.phase,
    {
        self.phase
    }

    /// What the scope says of itself.
    pub fn lease(&self) -> (r: LeaseState)
        ensures
            r == lease_of(self@),
    {
        LeaseState {
            id: self.id,
            generation: self.generation,
            open: self.phase == RuntimePhase::Open,
        }
    }

    /// The handle of the scope.
    pub fn handle(&self) -> (r: ScopeHandle)
        ensures
            r == (ScopeHandle { id: self@.id, generation: self@.generation }),
    {
        ScopeHandle::of(self.lease())
    }

    /// Keeps something to be undone when the scope closes. A scope that is not open gives it back:
    /// it is to be undone at once, and the request is refused.
    pub fn defer(&mut self, undo: U) -> (r: Result<(), U>)
        ensures
            old(self)@.phase == RuntimePhase::Open ==> r is Ok && final(self)@ == (ScopeModel {
                undos: old(self)@.undos.push(undo),
                ..old(self)@
            }),
            old(self)@.phase != RuntimePhase::Open ==> r == Err::<(), U>(undo) && final(self)@
                == old(self)@,
    {
        if self.phase == RuntimePhase::Open {
            self.undos.push(undo);
            Ok(())
        } else {
            Err(undo)
        }
    }

    /// Keeps something to be destroyed when the scope is disposed of. A scope that is not open
    /// gives it back.
    pub fn defer_destroy(&mut self, destroy: U) -> (r: Result<(), U>)
        ensures
            old(self)@.phase == RuntimePhase::Open ==> r is Ok && final(self)@ == (ScopeModel {
                destroys: old(self)@.destroys.push(destroy),
                ..old(self)@
            }),
            old(self)@.phase != RuntimePhase::Open ==> r == Err::<(), U>(destroy) && final(self)@
                == old(self)@,
    {
        if self.phase == RuntimePhase::Open {
            self.destroys.push(destroy);
            Ok(())
        } else {
            Err(destroy)
        }
    }

    /// Lets nothing new in.
    pub fn mark_stopping(&mut self)
        ensures
            final(self)@ == stopped(old(self)@),
    {
        if self.phase == RuntimePhase::Open {
            self.phase = RuntimePhase::Stopping;
        }
    }

    /// Begins to close the scope. Returns what is to be undone, the latest first; nothing where
    /// it closes already, or has closed.
    pub fn begin_close(&mut self) -> (r: Vec<U>)
        ensures
            final(self)@ == close_begun(old(self)@),
            r@ == to_undo(old(self)@),
    {
        match self.phase {
            RuntimePhase::Draining | RuntimePhase::Quarantined | RuntimePhase::Disposed => {
                return Vec::new();
            },
            _ => {},
        }
        if self.closing {
            return Vec::new();
        }
        self.closing = true;
        self.mark_stopping();
        take_reversed(&mut self.undos)
    }

    /// Everything was undone, with these errors.
    pub fn end_close(&mut self, errors: Vec<Error>)
        ensures
            final(self)@ == (ScopeModel {
                phase: RuntimePhase::Draining,
                closing: false,
                errors: old(self)@.errors + errors@,
                ..old(self)@
            }),
    {
        self.add_errors(errors);
        self.phase = RuntimePhase::Draining;
        self.closing = false;
    }

    fn add_errors(&mut self, errors: Vec<Error>)
        ensures
            final(self)@ == (ScopeModel { errors: old(self)@.errors + errors@, ..old(self)@ }),
    {
        let mut errors = errors;
        self.errors.append(&mut errors);
    }

    /// Begins to dispose of the scope. Returns what is to be destroyed, the latest first.
    pub fn begin_destroy(&mut self) -> (r: Vec<U>)
        ensures
            old(self)@.phase == RuntimePhase::Disposed ==> r@ == Seq::<U>::empty() && final(self)@
                == old(self)@,
            old(self)@.phase != RuntimePhase::Disposed ==> r@ == old(self)@.destroys.reverse()
                && final(self)@ == (ScopeModel { destroys: Seq::<U>::empty(), ..old(self)@ }),
    {
        if self.phase == RuntimePhase::Disposed {
            return Vec::new();
        }
        take_reversed(&mut self.destroys)
    }

    /// Everything was destroyed, with these errors.
    pub fn end_destroy(&mut self, errors: Vec<Error>)
        ensures
            final(self)@ == (ScopeModel {
                phase: RuntimePhase::Disposed,
                errors: old(self)@.errors + errors@,
                ..old(self)@
            }),
    {
        self.add_errors(errors);
        self.phase = RuntimePhase::Disposed;
    }

    /// Gives up waiting for what the scope started.
    pub fn quarantine(&mut self)
        ensures
            final(self)@ == quarantined(old(self)@),
    {
        if self.phase == RuntimePhase::Draining {
            self.phase = RuntimePhase::Quarantined;
        }
    }

    pub fn take_errors(&mut self) -> (r: Vec<Error>)
        ensures
            r@ == old(self)@.errors,
            final(self)@ == (ScopeModel { errors: Seq::<Error>::empty(), ..old(self)@ }),
    {
        let mut out: Vec<Error> = Vec::new();
        std::mem::swap(&mut out, &mut self.errors);
        out
    }
}

pub open spec fn lease_of<U>(s: ScopeModel<U>) -> LeaseState {
    LeaseState { id: s.id, generation: s.generation, open: s.phase == RuntimePhase::Open }
}

pub open spec fn quarantined<U>(s: ScopeModel<U>) -> ScopeModel<U> {
    if s.phase == RuntimePhase::Draining {
        ScopeModel { phase: RuntimePhase::Quarantined, ..s }
    } else {
        s
    }
}

/// What was added later is undone earlier, and each thing once: a second close has nothing left.
pub proof fn closing_undoes_once_in_reverse<U>(s: ScopeModel<U>, i: int)
    requires
        can_close(s),
        0 <= i < s.undos.len(),
    ensures
        to_undo(s).len() == s.undos.len(),
        to_undo(s)[s.undos.len() - 1 - i] == s.undos[i],
        to_undo(close_begun(s)) == Seq::<U>::empty(),
        close_begun(close_begun(s)) == close_begun(s),
{
}

// ---- the tree -----------------------------------------------------------------------------

struct ScopeRecord<U> {
    kind: ScopeKind,
    parent: Option<u64>,
    children: Vec<u64>,
    local: LocalScope<U>,
}

/// The scopes and how they lie in each other. The root has the id 1.
pub struct ScopeTree<U> {
    scopes: HashMap<u64, ScopeRecord<U>>,
    next_id: u64,
    next_generation: u64,
}

/// The model of one scope in the tree.
pub struct Node<U> {
    pub kind: ScopeKind,
    pub parent: Option<u64>,
    pub children: Seq<u64>,
    pub local: ScopeModel<U>,
}

pub const ROOT: u64 = 1;

/// Parents and children agree, every scope but the root has a parent, and a child is younger than
/// its parent.
pub open spec fn node_ok<U>(nodes: Map<u64, Node<U>>, id: u64) -> bool {
    let n = nodes[id];
    &&& n.local.id == ScopeId(id)
    &&& n.children.no_duplicates()
    &&& forall|c: u64| #[trigger]
        n.children.contains(c) ==> nodes.contains_key(c) && c > id && nodes[c].parent == Some(id)
    &&& (id == ROOT) == (n.parent is None)
    &&& (id == ROOT) == (n.kind == ScopeKind::Root)
    &&& n.parent matches Some(p) ==> nodes.contains_key(p) && p < id && nodes[p].children.contains(
        id,
    )
}

pub open spec fn tree_ok<U>(nodes: Map<u64, Node<U>>, next: u64) -> bool {
    &&& nodes.contains_key(ROOT)
    &&& forall|id: u64| #[trigger] nodes.contains_key(id) ==> 1 <= id < next && node_ok(nodes, id)
}

impl<U> ScopeTree<U> {
    /// The scopes by id.
    pub closed spec fn nodes(&self) -> Map<u64, Node<U>> {
        Map::new(
            |id: u64| self.scopes@.contains_key(id),
            |id: u64|
                Node {
                    kind: self.scopes@[id].kind,
                    parent: self.scopes@[id].parent,
                    children: self.scopes@[id].children@,
                    local: self.scopes@[id].local@,
                },
        )
    }

    /// The id that the next scope gets.
    pub closed spec fn next(&self) -> u64 {
        self.next_id
    }

    /// The generation that the next scope gets.
    pub closed spec fn next_gen(&self) -> u64 {
        self.next_generation
    }

    pub open spec fn wf(&self) -> bool {
        tree_ok(self.nodes(), self.next())
    }
}

/// The scopes at and below `id`, children before their parents, siblings in their order. `bound`
/// is above every id.
pub open spec fn stop_order<U>(nodes: Map<u64, Node<U>>, id: u64, bound: u64) -> Seq<u64>
    decreases bound - id, 1nat, 0nat,
{
    if id >= bound {
        Seq::empty()
    } else {
        stop_orders(nodes, id, nodes[id].children, bound).push(id)
    }
}

/// The scopes at and below each of the `children` of `parent`.
pub open spec fn stop_orders<U>(
    nodes: Map<u64, Node<U>>,
    parent: u64,
    children: Seq<u64>,
    bound: u64,
) -> Seq<u64>
    decreases bound - parent, 0nat, children.len(),
{
    if children.len() == 0 {
        Seq::empty()
    } else {
        let rest = stop_orders(nodes, parent, children.drop_last(), bound);
        if parent < children.last() && children.last() < bound {
            rest + stop_order(nodes, children.last(), bound)
        } else {
            rest
        }
    }
}

/// `id` lies at or below `top`.
pub open spec fn lies_below<U>(nodes: Map<u64, Node<U>>, id: u64, top: u64) -> bool
    decreases id,
{
    id == top || (nodes.contains_key(id) && match nodes[id].parent {
        Some(p) => p < id && lies_below(nodes, p, top),
        None => false,
    })
}

/// A change inside of one scope leaves the tree in order.
proof fn lemma_local_only<U>(nodes: Map<u64, Node<U>>, id: u64, n: Node<U>, next: u64)
    requires
        tree_ok(nodes, next),
        nodes.contains_key(id),
        n.kind == nodes[id].kind,
        n.parent == nodes[id].parent,
        n.children == nodes[id].children,
        n.local.id == nodes[id].local.id,
    ensures
        tree_ok(nodes.insert(id, n), next),
{
    let after = nodes.insert(id, n);
    assert forall|k: u64| #[trigger] after.contains_key(k) implies 1 <= k < next && node_ok(
        after,
        k,
    ) by {
        assert(nodes.contains_key(k));
        assert(node_ok(nodes, k));
        assert forall|c: u64| #[trigger] after[k].children.contains(c) implies after.contains_key(c)
            && c > k && after[c].parent == Some(k) by {
            assert(nodes[k].children.contains(c));
        }
    }
}

impl<U> ScopeTree<U> {
    /// A tree with a root.
    pub fn new() -> (r: Self)
        ensures
            r.wf(),
            r.next() == 2,
            r.next_gen() == 2,
            r.nodes().dom() == set![ROOT],
            r.nodes()[ROOT].kind == ScopeKind::Root,
            r.nodes()[ROOT].children == Seq::<u64>::empty(),
            r.nodes()[ROOT].local.phase == RuntimePhase::Open,
            r.nodes()[ROOT].local.generation == 1,
    {
        let mut scopes: HashMap<u64, ScopeRecord<U>> = HashMap::new();
        scopes.insert(
            ROOT,
            ScopeRecord {
                kind: ScopeKind::Root,
                parent: None,
                children: Vec::new(),
                local: LocalScope::new(ScopeId(ROOT), 1),
            },
        );
        let r = ScopeTree { scopes, next_id: 2, next_generation: 2 };
        assert(r.nodes().dom() =~= set![ROOT]);
        r
    }

    pub fn root(&self) -> (r: ScopeId)
        ensures
            r == ScopeId(ROOT),
    {
        ScopeId(ROOT)
    }

    /// How many scopes there are.
    pub fn len(&self) -> (r: usize)
        ensures
            r == self.nodes().dom().len(),
    {
        assert(self.nodes().dom() =~= self.scopes@.dom());
        self.scopes.len()
    }

    pub fn kind(&self, id: ScopeId) -> (r: Option<ScopeKind>)
        ensures
            r == if self.nodes().contains_key(id.0) {
                Some(self.nodes()[id.0].kind)
            } else {
                None
            },
    {
        match self.scopes.get(&id.0) {
            Some(record) => Some(record.kind),
            None => None,
        }
    }

    pub fn parent(&self, id: ScopeId) -> (r: Option<ScopeId>)
        ensures
            r == if self.nodes().contains_key(id.0) {
                match self.nodes()[id.0].parent {
                    Some(p) => Some(ScopeId(p)),
                    None => None,
                }
            } else {
                None
            },
    {
        match self.scopes.get(&id.0) {
            Some(record) => match record.parent {
                Some(p) => Some(ScopeId(p)),
                None => None,
            },
            None => None,
        }
    }

    /// What a scope says of itself; nothing where it is gone.
    pub fn lease(&self, id: ScopeId) -> (r: Option<LeaseState>)
        ensures
            r == if self.nodes().contains_key(id.0) {
                Some(lease_of(self.nodes()[id.0].local))
            } else {
                None
            },
    {
        match self.scopes.get(&id.0) {
            Some(record) => Some(record.local.lease()),
            None => None,
        }
    }

    /// How far a scope is; nothing where it is gone.
    pub fn phase(&self, id: ScopeId) -> (r: Option<RuntimePhase>)
        ensures
            r == if self.nodes().contains_key(id.0) {
                Some(self.nodes()[id.0].local.phase)
            } else {
                None
            },
    {
        match self.scopes.get(&id.0) {
            Some(record) => Some(record.local.phase()),
            None => None,
        }
    }

    /// A scope of the tree.
    pub fn local(&self, id: ScopeId) -> (r: Result<&LocalScope<U>, Error>)
        ensures
            match r {
                Ok(local) => self.nodes().contains_key(id.0) && local@ == self.nodes()[id.0].local,
                Err(e) => !self.nodes().contains_key(id.0) && e == Error::Closed,
            },
    {
        match self.scopes.get(&id.0) {
            Some(record) => Ok(&record.local),
            None => Err(Error::Closed),
        }
    }

    /// The handle of a scope.
    pub fn handle(&self, id: ScopeId) -> (r: Result<ScopeHandle, Error>)
        requires
            self.wf(),
        ensures
            r == if self.nodes().contains_key(id.0) {
                Ok::<ScopeHandle, Error>(
                    ScopeHandle { id, generation: self.nodes()[id.0].local.generation },
                )
            } else {
                Err(Error::Closed)
            },
    {
        match self.scopes.get(&id.0) {
            Some(record) => {
                proof {
                    assert(self.nodes().contains_key(id.0));
                    assert(node_ok(self.nodes(), id.0));
                }
                Ok(record.local.handle())
            },
            None => Err(Error::Closed),
        }
    }

    /// Makes a scope below an open one. There is one root only.
    pub fn create(&mut self, parent: ScopeId, kind: ScopeKind) -> (r: Result<ScopeId, Error>)
        requires
            old(self).wf(),
        ensures
            final(self).wf(),
            match r {
                Ok(id) => {
                    let a = old(self).nodes();
                    &&& kind != ScopeKind::Root
                    &&& a.contains_key(parent.0)
                    &&& a[parent.0].local.phase == RuntimePhase::Open
                    &&& id.0 == old(self).next()
                    &&& final(self).next() == old(self).next() + 1
                    &&& final(self).next_gen() == old(self).next_gen() + 1
                    &&& final(self).nodes() == with_child(
                        a,
                        parent.0,
                        kind,
                        id.0,
                        old(self).next_gen(),
                    )
                },
                Err(e) => {
                    &&& final(self).nodes() == old(self).nodes()
                    &&& final(self).next_gen() == old(self).next_gen()
                    &&& kind == ScopeKind::Root ==> is_invalid(
                        e,
                        "a second root scope is not permitted"@,
                    ) && final(self).next()
                        == old(self).next()
                    &&& kind != ScopeKind::Root && !takes_children(old(self).nodes(), parent.0)
                        ==> e == Error::Closed && final(self).next() == old(self).next()
                    &&& kind != ScopeKind::Root && takes_children(old(self).nodes(), parent.0)
                        ==> e == Error::Exhausted && (old(self).next() == u64::MAX || old(
                        self,
                    ).next_gen() == u64::MAX) && final(self).next() == if old(self).next()
                        == u64::MAX {
                        old(self).next()
                    } else {
                        (old(self).next() + 1) as u64
                    }
                },
            },
            r is Ok <==> kind != ScopeKind::Root && takes_children(old(self).nodes(), parent.0)
                && old(self).next() < u64::MAX && old(self).next_gen() < u64::MAX,
    {
        if kind == ScopeKind::Root {
            return Err(Error::Invalid("a second root scope is not permitted".to_owned()));
        }
        let ghost before = self.nodes();
        match self.scopes.get(&parent.0) {
            Some(record) => {
                if record.local.phase() != RuntimePhase::Open {
                    return Err(Error::Closed);
                }
            },
            None => {
                return Err(Error::Closed);
            },
        }
        let id: u64 = self.next_id;
        if id == u64::MAX {
            return Err(Error::Exhausted);
        }
        self.next_id = id + 1;
        let generation: u64 = self.next_generation;
        if generation == u64::MAX {
            assert(self.nodes() =~= before);
            assert forall|k: u64| #[trigger] self.nodes().contains_key(k) implies 1 <= k
                < self.next_id && node_ok(self.nodes(), k) by {
                assert(before.contains_key(k));
            }
            return Err(Error::Exhausted);
        }
        self.next_generation = generation + 1;
        let local = LocalScope::new(ScopeId(id), generation);
        if let Some(above) = self.scopes.remove(&parent.0) {
            let mut above = above;
            above.children.push(id);
            self.scopes.insert(parent.0, above);
        }
        self.scopes.insert(
            id,
            ScopeRecord { kind, parent: Some(parent.0), children: Vec::new(), local },
        );
        proof {
            assert(!before.contains_key(id));
            assert(self.nodes() =~= with_child(before, parent.0, kind, id, generation));
            lemma_with_child(before, parent.0, kind, id, generation);
        }
        Ok(ScopeId(id))
    }

    /// Keeps something to be undone when a scope closes. A scope that is not open, or is gone, gives
    /// it back: it is to be undone at once, and the request is refused.
    pub fn defer(&mut self, id: ScopeId, undo: U) -> (r: Result<(), U>)
        requires
            old(self).wf(),
        ensures
            final(self).wf(),
            final(self).next() == old(self).next(),
            final(self).next_gen() == old(self).next_gen(),
            takes_children(old(self).nodes(), id.0) ==> r is Ok && final(self).nodes() == old(
                self,
            ).nodes().insert(id.0, with_undo(old(self).nodes()[id.0], undo)),
            !takes_children(old(self).nodes(), id.0) ==> r == Err::<(), U>(undo)
                && final(self).nodes() == old(self).nodes(),
    {
        let ghost before = self.nodes();
        let mut r = Err(undo);
        if let Some(record) = self.scopes.remove(&id.0) {
            let mut record = record;
            if let Err(undo) = r {
                r = record.local.defer(undo);
            }
            self.scopes.insert(id.0, record);
        }
        proof {
            if takes_children(before, id.0) {
                lemma_local_only(before, id.0, with_undo(before[id.0], undo), self.next());
                assert(self.nodes() =~= before.insert(id.0, with_undo(before[id.0], undo)));
            } else {
                assert(self.nodes() =~= before);
            }
        }
        r
    }

    /// Keeps something to be destroyed when a scope is disposed of. A scope that is not open, or is
    /// gone, gives it back.
    pub fn defer_destroy(&mut self, id: ScopeId, destroy: U) -> (r: Result<(), U>)
        requires
            old(self).wf(),
        ensures
            final(self).wf(),
            final(self).next() == old(self).next(),
            final(self).next_gen() == old(self).next_gen(),
            takes_children(old(self).nodes(), id.0) ==> r is Ok && final(self).nodes() == old(
                self,
            ).nodes().insert(id.0, with_destroy(old(self).nodes()[id.0], destroy)),
            !takes_children(old(self).nodes(), id.0) ==> r == Err::<(), U>(destroy)
                && final(self).nodes() == old(self).nodes(),
    {
        let ghost before = self.nodes();
        let mut r = Err(destroy);
        if let Some(record) = self.scopes.remove(&id.0) {
            let mut record = record;
            if let Err(destroy) = r {
                r = record.local.defer_destroy(destroy);
            }
            self.scopes.insert(id.0, record);
        }
        proof {
            if takes_children(before, id.0) {
                lemma_local_only(before, id.0, with_destroy(before[id.0], destroy), self.next());
                assert(self.nodes() =~= before.insert(id.0, with_destroy(before[id.0], destroy)));
            } else {
                assert(self.nodes() =~= before);
            }
        }
        r
    }

    /// Takes what went wrong in a scope; nothing where it is gone.
    pub fn take_errors(&mut self, id: ScopeId) -> (r: Vec<Error>)
        requires
            old(self).wf(),
        ensures
            final(self).wf(),
            final(self).next() == old(self).next(),
            final(self).next_gen() == old(self).next_gen(),
            old(self).nodes().contains_key(id.0) ==> r@ == old(self).nodes()[id.0].local.errors
                && final(self).nodes() == old(self).nodes().insert(
                id.0,
                without_errors(old(self).nodes()[id.0]),
            ),
            !old(self).nodes().contains_key(id.0) ==> r@ == Seq::<Error>::empty()
                && final(self).nodes() == old(self).nodes(),
    {
        let ghost before = self.nodes();
        let mut out: Vec<Error> = Vec::new();
        if let Some(record) = self.scopes.remove(&id.0) {
            let mut record = record;
            out = record.local.take_errors();
            self.scopes.insert(id.0, record);
        }
        proof {
            if before.contains_key(id.0) {
                lemma_local_only(before, id.0, without_errors(before[id.0]), self.next());
                assert(self.nodes() =~= before.insert(id.0, without_errors(before[id.0])));
            } else {
                assert(self.nodes() =~= before);
            }
        }
        out
    }

    /// Lets nothing new into a scope.
    pub fn mark_stopping(&mut self, id: ScopeId)
        requires
            old(self).wf(),
            old(self).nodes().contains_key(id.0),
        ensures
            final(self).wf(),
            final(self).nodes() == old(self).nodes().insert(
                id.0,
                Node { local: stopped(old(self).nodes()[id.0].local), ..old(self).nodes()[id.0] },
            ),
            final(self).next() == old(self).next(),
            final(self).next_gen() == old(self).next_gen(),
    {
        let ghost before = self.nodes();
        if let Some(record) = self.scopes.remove(&id.0) {
            let mut record = record;
            record.local.mark_stopping();
            self.scopes.insert(id.0, record);
        }
        proof {
            lemma_local_only(
                before,
                id.0,
                Node { local: stopped(before[id.0].local), ..before[id.0] },
                self.next(),
            );
            assert(self.nodes() =~= before.insert(
                id.0,
                Node { local: stopped(before[id.0].local), ..before[id.0] },
            ));
        }

    }

    /// Begins to close a scope. Returns what is to be undone, the latest first.
    pub fn begin_close(&mut self, id: ScopeId) -> (r: Vec<U>)
        requires
            old(self).wf(),
            old(self).nodes().contains_key(id.0),
        ensures
            final(self).wf(),
            final(self).nodes() == old(self).nodes().insert(
                id.0,
                Node { local: close_begun(old(self).nodes()[id.0].local), ..old(self).nodes()[id.0] },
            ),
            final(self).next() == old(self).next(),
            final(self).next_gen() == old(self).next_gen(),
            r@ == to_undo(old(self).nodes()[id.0].local),
    {
        let ghost before = self.nodes();
        let mut out: Vec<U> = Vec::new();
        if let Some(record) = self.scopes.remove(&id.0) {
            let mut record = record;
            out = record.local.begin_close();
            self.scopes.insert(id.0, record);
        }
        proof {
            lemma_local_only(
                before,
                id.0,
                Node { local: close_begun(before[id.0].local), ..before[id.0] },
                self.next(),
            );
            assert(self.nodes() =~= before.insert(
                id.0,
                Node { local: close_begun(before[id.0].local), ..before[id.0] },
            ));
        }
        out
    }

    /// Everything that a scope undoes was undone, with these errors.
    pub fn end_close(&mut self, id: ScopeId, errors: Vec<Error>)
        requires
            old(self).wf(),
            old(self).nodes().contains_key(id.0),
        ensures
            final(self).wf(),
            final(self).nodes() == old(self).nodes().insert(
                id.0,
                Node { local: close_ended(old(self).nodes()[id.0].local, errors@), ..old(self).nodes()[id.0] },
            ),
            final(self).next() == old(self).next(),
            final(self).next_gen() == old(self).next_gen(),
    {
        let ghost before = self.nodes();
        if let Some(record) = self.scopes.remove(&id.0) {
            let mut record = record;
            record.local.end_close(errors);
            self.scopes.insert(id.0, record);
        }
        proof {
            lemma_local_only(
                before,
                id.0,
                Node { local: close_ended(before[id.0].local, errors@), ..before[id.0] },
                self.next(),
            );
            assert(self.nodes() =~= before.insert(
                id.0,
                Node { local: close_ended(before[id.0].local, errors@), ..before[id.0] },
            ));
        }

    }

    /// Everything that a scope destroys was destroyed, with these errors.
    pub fn end_destroy(&mut self, id: ScopeId, errors: Vec<Error>)
        requires
            old(self).wf(),
            old(self).nodes().contains_key(id.0),
        ensures
            final(self).wf(),
            final(self).nodes() == old(self).nodes().insert(
                id.0,
                Node { local: destroy_ended(old(self).nodes()[id.0].local, errors@), ..old(self).nodes()[id.0] },
            ),
            final(self).next() == old(self).next(),
            final(self).next_gen() == old(self).next_gen(),
    {
        let ghost before = self.nodes();
        if let Some(record) = self.scopes.remove(&id.0) {
            let mut record = record;
            record.local.end_destroy(errors);
            self.scopes.insert(id.0, record);
        }
        proof {
            lemma_local_only(
                before,
                id.0,
                Node { local: destroy_ended(before[id.0].local, errors@), ..before[id.0] },
                self.next(),
            );
            assert(self.nodes() =~= before.insert(
                id.0,
                Node { local: destroy_ended(before[id.0].local, errors@), ..before[id.0] },
            ));
        }

    }

    /// Gives up waiting for what a scope started.
    pub fn quarantine(&mut self, id: ScopeId)
        requires
            old(self).wf(),
            old(self).nodes().contains_key(id.0),
        ensures
            final(self).wf(),
            final(self).nodes() == old(self).nodes().insert(
                id.0,
                Node { local: quarantined(old(self).nodes()[id.0].local), ..old(self).nodes()[id.0] },
            ),
            final(self).next() == old(self).next(),
            final(self).next_gen() == old(self).next_gen(),
    {
        let ghost before = self.nodes();
        if let Some(record) = self.scopes.remove(&id.0) {
            let mut record = record;
            record.local.quarantine();
            self.scopes.insert(id.0, record);
        }
        proof {
            lemma_local_only(
                before,
                id.0,
                Node { local: quarantined(before[id.0].local), ..before[id.0] },
                self.next(),
            );
            assert(self.nodes() =~= before.insert(
                id.0,
                Node { local: quarantined(before[id.0].local), ..before[id.0] },
            ));
        }

    }

    /// Begins to dispose of a scope. Returns what is to be destroyed, the latest first.
    pub fn begin_destroy(&mut self, id: ScopeId) -> (r: Vec<U>)
        requires
            old(self).wf(),
            old(self).nodes().contains_key(id.0),
        ensures
            final(self).wf(),
            final(self).nodes() == old(self).nodes().insert(
                id.0,
                Node { local: destroy_begun(old(self).nodes()[id.0].local), ..old(self).nodes()[id.0] },
            ),
            final(self).next() == old(self).next(),
            final(self).next_gen() == old(self).next_gen(),
            r@ == to_destroy(old(self).nodes()[id.0].local),
    {
        let ghost before = self.nodes();
        let mut out: Vec<U> = Vec::new();
        if let Some(record) = self.scopes.remove(&id.0) {
            let mut record = record;
            out = record.local.begin_destroy();
            self.scopes.insert(id.0, record);
        }
        proof {
            lemma_local_only(
                before,
                id.0,
                Node { local: destroy_begun(before[id.0].local), ..before[id.0] },
                self.next(),
            );
            assert(self.nodes() =~= before.insert(
                id.0,
                Node { local: destroy_begun(before[id.0].local), ..before[id.0] },
            ));
        }
        out
    }
}

/// The scope takes children.
pub open spec fn takes_children<U>(nodes: Map<u64, Node<U>>, id: u64) -> bool {
    nodes.contains_key(id) && nodes[id].local.phase == RuntimePhase::Open
}

/// The scope with one more thing to be undone.
pub open spec fn with_undo<U>(n: Node<U>, undo: U) -> Node<U> {
    Node { local: ScopeModel { undos: n.local.undos.push(undo), ..n.local }, ..n }
}

/// The scope with one more thing to be destroyed.
pub open spec fn with_destroy<U>(n: Node<U>, destroy: U) -> Node<U> {
    Node { local: ScopeModel { destroys: n.local.destroys.push(destroy), ..n.local }, ..n }
}

/// The scope once its errors were taken.
pub open spec fn without_errors<U>(n: Node<U>) -> Node<U> {
    Node { local: ScopeModel { errors: Seq::empty(), ..n.local }, ..n }
}

/// The scope once it began to be disposed of.
pub open spec fn destroy_begun<U>(s: ScopeModel<U>) -> ScopeModel<U> {
    if s.phase == RuntimePhase::Disposed {
        s
    } else {
        ScopeModel { destroys: Seq::empty(), ..s }
    }
}

/// What is to be destroyed, in order: the latest first.
pub open spec fn to_destroy<U>(s: ScopeModel<U>) -> Seq<U> {
    if s.phase == RuntimePhase::Disposed {
        Seq::empty()
    } else {
        s.destroys.reverse()
    }
}

/// The tree with a new scope below `parent`.
pub open spec fn with_child<U>(
    nodes: Map<u64, Node<U>>,
    parent: u64,
    kind: ScopeKind,
    id: u64,
    generation: u64,
) -> Map<u64, Node<U>> {
    nodes.insert(
        parent,
        Node { children: nodes[parent].children.push(id), ..nodes[parent] },
    ).insert(
        id,
        Node {
            kind,
            parent: Some(parent),
            children: Seq::empty(),
            local: ScopeModel {
                id: ScopeId(id),
                generation,
                phase: RuntimePhase::Open,
                closing: false,
                undos: Seq::empty(),
                destroys: Seq::empty(),
                errors: Seq::empty(),
            },
        },
    )
}

proof fn lemma_with_child<U>(
    nodes: Map<u64, Node<U>>,
    parent: u64,
    kind: ScopeKind,
    id: u64,
    generation: u64,
)
    requires
        tree_ok(nodes, id),
        nodes.contains_key(parent),
        kind != ScopeKind::Root,
        id < u64::MAX,
    ensures
        tree_ok(with_child(nodes, parent, kind, id, generation), (id + 1) as u64),
{
    let after = with_child(nodes, parent, kind, id, generation);
    assert(1 <= parent < id);
    assert(after[parent].children.last() == id);
    assert forall|k: u64| #[trigger] after.contains_key(k) implies 1 <= k < id + 1 && node_ok(
        after,
        k,
    ) by {
        if k == id {
            assert(after[parent].children[after[parent].children.len() - 1] == id);
        } else {
            assert(nodes.contains_key(k));
            assert(node_ok(nodes, k));
            assert forall|c: u64| #[trigger] after[k].children.contains(c) implies after.contains_key(
                c,
            ) && c > k && after[c].parent == Some(k) by {
                let j = after[k].children.index_of(c);
                if k == parent && j == nodes[parent].children.len() {
                } else {
                    assert(nodes[k].children[j] == c);
                    assert(nodes[k].children.contains(c));
                }
            }
            if k == parent {
                assert(after[k].children.no_duplicates()) by {
                    let cs = nodes[k].children;
                    assert forall|i: int, j: int|
                        0 <= i < after[k].children.len() && 0 <= j < after[k].children.len() && i
                            != j implies after[k].children[i] != after[k].children[j] by {
                        if i < cs.len() {
                            assert(cs.contains(cs[i]));
                            assert(nodes.contains_key(cs[i]));
                        }
                        if j < cs.len() {
                            assert(cs.contains(cs[j]));
                            assert(nodes.contains_key(cs[j]));
                        }
                    }
                }
            }
            if let Some(p) = nodes[k].parent {
                let j = nodes[p].children.index_of(k);
                assert(nodes[p].children[j] == k);
                assert(after[p].children[j] == k);
            }
        }
    }
}

// ---- below a scope ------------------------------------------------------------------------

pub(crate) proof fn lemma_not_above<U>(nodes: Map<u64, Node<U>>, x: u64, top: u64)
    requires
        lies_below(nodes, x, top),
    ensures
        x >= top,
    decreases x,
{
    if x != top {
        lemma_not_above(nodes, nodes[x].parent->0, top);
    }
}

/// Of two scopes that something lies below, one lies below the other.
proof fn lemma_one_line<U>(nodes: Map<u64, Node<U>>, x: u64, a: u64, b: u64)
    requires
        lies_below(nodes, x, a),
        lies_below(nodes, x, b),
        a < b,
    ensures
        lies_below(nodes, b, a),
    decreases x,
{
    if x != b {
        if x == a {
            lemma_not_above(nodes, a, b);
        } else {
            lemma_one_line(nodes, nodes[x].parent->0, a, b);
        }
    }
}

/// Nothing lies below two children of one scope.
proof fn lemma_siblings_apart<U>(nodes: Map<u64, Node<U>>, next: u64, parent: u64, a: u64, b: u64, x: u64)
    requires
        tree_ok(nodes, next),
        nodes.contains_key(parent),
        nodes[parent].children.contains(a),
        nodes[parent].children.contains(b),
        lies_below(nodes, x, a),
        lies_below(nodes, x, b),
    ensures
        a == b,
{
    assert(node_ok(nodes, parent));
    if a < b {
        lemma_one_line(nodes, x, a, b);
        lemma_not_above(nodes, parent, a);
    } else if b < a {
        lemma_one_line(nodes, x, b, a);
        lemma_not_above(nodes, parent, b);
    }
}

/// The order in which scopes stop has each scope at or below `id` at most once, and `id` last.
pub(crate) proof fn lemma_order<U>(nodes: Map<u64, Node<U>>, id: u64, next: u64)
    requires
        tree_ok(nodes, next),
        nodes.contains_key(id),
    ensures
        stop_order(nodes, id, next).no_duplicates(),
        stop_order(nodes, id, next).len() > 0,
        stop_order(nodes, id, next).last() == id,
        forall|x: u64| #[trigger]
            stop_order(nodes, id, next).contains(x) ==> nodes.contains_key(x) && lies_below(
                nodes,
                x,
                id,
            ),
    decreases next - id, 1nat, 0nat,
{
    assert(node_ok(nodes, id));
    let cs = nodes[id].children;
    lemma_orders(nodes, id, cs.len() as int, next);
    assert(cs.take(cs.len() as int) =~= cs);
    let front = stop_orders(nodes, id, cs, next);
    let all = stop_order(nodes, id, next);
    assert(all == front.push(id));
    assert forall|x: u64| #[trigger] all.contains(x) implies nodes.contains_key(x) && lies_below(
        nodes,
        x,
        id,
    ) by {
        let j = all.index_of(x);
        if j < front.len() {
            assert(front[j] == x);
            assert(front.contains(x));
            let c = choose|c: u64| cs.contains(c) && #[trigger] lies_below(nodes, x, c);
            lemma_below_parent(nodes, x, c, id);
        }
    }
    assert forall|i: int, j: int| 0 <= i < all.len() && 0 <= j < all.len() && i != j implies all[i]
        != all[j] by {
        if i < front.len() {
            assert(front.contains(front[i]));
        }
        if j < front.len() {
            assert(front.contains(front[j]));
        }
    }
}

proof fn lemma_below_parent<U>(nodes: Map<u64, Node<U>>, x: u64, c: u64, parent: u64)
    requires
        lies_below(nodes, x, c),
        nodes.contains_key(c),
        nodes[c].parent == Some(parent),
        parent < c,
    ensures
        lies_below(nodes, x, parent),
    decreases x,
{
    assert(lies_below(nodes, parent, parent));
    if x != c {
        lemma_below_parent(nodes, nodes[x].parent->0, c, parent);
    }
}

proof fn lemma_orders<U>(nodes: Map<u64, Node<U>>, parent: u64, k: int, next: u64)
    requires
        tree_ok(nodes, next),
        nodes.contains_key(parent),
        0 <= k <= nodes[parent].children.len(),
    ensures
        stop_orders(nodes, parent, nodes[parent].children.take(k), next).no_duplicates(),
        forall|x: u64| #[trigger]
            stop_orders(nodes, parent, nodes[parent].children.take(k), next).contains(x)
                ==> nodes.contains_key(x) && x > parent && exists|c: u64|
                nodes[parent].children.take(k).contains(c) && #[trigger] lies_below(nodes, x, c),
    decreases next - parent, 0nat, k,
{
    assert(node_ok(nodes, parent));
    let all = nodes[parent].children;
    let cs = all.take(k);
    if k > 0 {
        let c = all[k - 1];
        assert(cs.last() == c);
        assert(cs.drop_last() =~= all.take(k - 1));
        assert(all.contains(c));
        assert(nodes.contains_key(c) && c > parent);
        lemma_orders(nodes, parent, k - 1, next);
        lemma_order(nodes, c, next);
        let rest = stop_orders(nodes, parent, all.take(k - 1), next);
        let more = stop_order(nodes, c, next);
        let out = stop_orders(nodes, parent, cs, next);
        assert(out == rest + more);
        assert(cs[k - 1] == c);
        assert forall|x: u64| #[trigger] out.contains(x) implies nodes.contains_key(x) && x > parent
            && exists|d: u64| cs.contains(d) && #[trigger] lies_below(nodes, x, d) by {
            let j = out.index_of(x);
            if j < rest.len() {
                assert(rest[j] == x);
                assert(rest.contains(x));
                let d = choose|d: u64|
                    all.take(k - 1).contains(d) && #[trigger] lies_below(nodes, x, d);
                let m = all.take(k - 1).index_of(d);
                assert(cs[m] == d);
                assert(cs.contains(d) && lies_below(nodes, x, d));
            } else {
                assert(more[j - rest.len()] == x);
                assert(more.contains(x));
                lemma_not_above(nodes, x, c);
                assert(cs.contains(c) && lies_below(nodes, x, c));
            }
        }
        assert forall|i: int, j: int| 0 <= i < out.len() && 0 <= j < out.len() && i < j implies out[i]
            != out[j] by {
            if i < rest.len() && j >= rest.len() {
                let x = out[i];
                if x == out[j] {
                    assert(rest[i] == x);
                    assert(rest.contains(x));
                    assert(more[j - rest.len()] == x);
                    assert(more.contains(x));
                    let d = choose|d: u64|
                        all.take(k - 1).contains(d) && #[trigger] lies_below(nodes, x, d);
                    let m = all.take(k - 1).index_of(d);
                    assert(all[m] == d);
                    assert(all.contains(d));
                    lemma_siblings_apart(nodes, next, parent, c, d, x);
                    assert(all[m] == all[k - 1]);
                }
            }
        }
    }
}

/// The order of a scope has the orders of its children in it, one behind the other.
proof fn lemma_child_in_order<U>(nodes: Map<u64, Node<U>>, parent: u64, k: int, i: int, next: u64)
    requires
        tree_ok(nodes, next),
        nodes.contains_key(parent),
        0 <= i < k <= nodes[parent].children.len(),
    ensures
        forall|x: u64| #[trigger]
            stop_order(nodes, nodes[parent].children[i], next).contains(x) ==> stop_orders(
                nodes,
                parent,
                nodes[parent].children.take(k),
                next,
            ).contains(x),
    decreases k,
{
    assert(node_ok(nodes, parent));
    let all = nodes[parent].children;
    let cs = all.take(k);
    let c = all[k - 1];
    assert(cs.last() == c);
    assert(cs.drop_last() =~= all.take(k - 1));
    assert(all.contains(c));
    assert(nodes.contains_key(c) && c > parent);
    let rest = stop_orders(nodes, parent, all.take(k - 1), next);
    let more = stop_order(nodes, c, next);
    let out = stop_orders(nodes, parent, cs, next);
    assert(out == rest + more);
    if i < k - 1 {
        lemma_child_in_order(nodes, parent, k - 1, i, next);
    }
    assert forall|x: u64| #[trigger] stop_order(nodes, all[i], next).contains(x) implies out.contains(
        x,
    ) by {
        if i == k - 1 {
            assert(out[rest.len() + more.index_of(x)] == x);
        } else {
            assert(rest.contains(x));
            assert(out[rest.index_of(x)] == x);
        }
    }
}

/// The order of a scope below another one is part of the other's.
proof fn lemma_order_below<U>(nodes: Map<u64, Node<U>>, x: u64, top: u64, next: u64)
    requires
        tree_ok(nodes, next),
        nodes.contains_key(x),
        nodes.contains_key(top),
        lies_below(nodes, x, top),
    ensures
        forall|y: u64| #[trigger]
            stop_order(nodes, x, next).contains(y) ==> stop_order(nodes, top, next).contains(y),
    decreases x,
{
    if x != top {
        assert(node_ok(nodes, x));
        let p = nodes[x].parent->0;
        lemma_order_below(nodes, p, top, next);
        assert(node_ok(nodes, p));
        let cs = nodes[p].children;
        let i = cs.index_of(x);
        assert(cs.take(cs.len() as int) =~= cs);
        lemma_child_in_order(nodes, p, cs.len() as int, i, next);
        assert forall|y: u64| #[trigger] stop_order(nodes, x, next).contains(y) implies stop_order(
            nodes,
            top,
            next,
        ).contains(y) by {
            let front = stop_orders(nodes, p, cs, next);
            assert(cs[i] == x);
            assert(front.contains(y));
            let all = stop_order(nodes, p, next);
            assert(all[front.index_of(y)] == y);
            assert(all.contains(y));
        }
    }
}

/// Stopping a scope stops exactly the scopes at and below it, each once, and itself last.
pub proof fn a_scope_stops_with_all_below_it<U>(nodes: Map<u64, Node<U>>, id: u64, next: u64, x: u64)
    requires
        tree_ok(nodes, next),
        nodes.contains_key(id),
        nodes.contains_key(x),
    ensures
        stop_order(nodes, id, next).contains(x) <==> lies_below(nodes, x, id),
        stop_order(nodes, id, next).no_duplicates(),
        stop_order(nodes, id, next).last() == id,
{
    lemma_order(nodes, id, next);
    if lies_below(nodes, x, id) {
        lemma_order_below(nodes, x, id, next);
        lemma_order(nodes, x, next);
        let s = stop_order(nodes, x, next);
        assert(s[s.len() - 1] == x);
        assert(s.contains(x));
    }
}

// ---- stopping -----------------------------------------------------------------------------

/// What stopping scopes came to.
pub struct StopPlan<U> {
    /// The scopes, children before their parents.
    pub order: Vec<u64>,
    /// What is to be undone, in order, with the scope that each thing belongs to.
    pub undos: Vec<(u64, U)>,
}

pub open spec fn tagged<U>(id: u64, us: Seq<U>) -> Seq<(u64, U)> {
    Seq::new(us.len(), |i: int| (id, us[i]))
}

/// What is to be undone when these scopes close one after the other.
pub open spec fn undos_of<U>(nodes: Map<u64, Node<U>>, order: Seq<u64>) -> Seq<(u64, U)>
    decreases order.len(),
{
    if order.len() == 0 {
        Seq::empty()
    } else {
        undos_of(nodes, order.drop_last()) + tagged(
            order.last(),
            to_undo(nodes[order.last()].local),
        )
    }
}

/// What is to be destroyed when these scopes are disposed of one after the other.
pub open spec fn destroys_of<U>(nodes: Map<u64, Node<U>>, order: Seq<u64>) -> Seq<(u64, U)>
    decreases order.len(),
{
    if order.len() == 0 {
        Seq::empty()
    } else {
        destroys_of(nodes, order.drop_last()) + tagged(
            order.last(),
            to_destroy(nodes[order.last()].local),
        )
    }
}

/// The scope once everything at and below it stopped.
pub open spec fn stop_begun<U>(s: ScopeModel<U>) -> ScopeModel<U> {
    close_begun(stopped(s))
}

/// The two trees have the same scopes in the same places.
pub open spec fn same_shape<U>(a: Map<u64, Node<U>>, b: Map<u64, Node<U>>) -> bool {
    &&& a.dom() == b.dom()
    &&& forall|id: u64| #[trigger]
        b.contains_key(id) ==> a[id].kind == b[id].kind && a[id].parent == b[id].parent
            && a[id].children == b[id].children && a[id].local.id == b[id].local.id
}

fn push_tagged<U>(out: &mut Vec<(u64, U)>, id: u64, us: Vec<U>)
    ensures
        final(out)@ == old(out)@ + tagged(id, us@),
{
    let ghost all = us@;
    let mut us = us;
    let ghost mut seen: int = 0;
    assert(all.skip(0) =~= all);
    assert(tagged(id, all.take(0)) =~= Seq::<(u64, U)>::empty());
    while us.len() > 0
        invariant
            0 <= seen <= all.len(),
            us@ == all.skip(seen),
            out@ == old(out)@ + tagged(id, all.take(seen)),
        decreases us.len(),
    {
        let u = us.remove(0);
        proof {
            assert(u == all[seen]);
            assert(us@ =~= all.skip(seen + 1));
            assert(tagged(id, all.take(seen + 1)) =~= tagged(id, all.take(seen)).push((id, u)));
            seen = seen + 1;
        }
        out.push((id, u));
    }
    assert(all.take(seen) =~= all);
}

impl<U> ScopeTree<U> {
    fn append_order(&self, id: u64, out: &mut Vec<u64>)
        requires
            self.wf(),
            self.nodes().contains_key(id),
        ensures
            final(out)@ == old(out)@ + stop_order(self.nodes(), id, self.next()),
        decreases self.next() - id,
    {
        let ghost nodes = self.nodes();
        proof {
            assert(node_ok(nodes, id));
            assert(1 <= id < self.next());
        }
        if let Some(record) = self.scopes.get(&id) {
            let n: usize = record.children.len();
            let ghost cs = nodes[id].children;
            assert(cs == record.children@);
            assert(cs.take(0) =~= Seq::<u64>::empty());
            for i in 0..n
                invariant
                    self.wf(),
                    nodes == self.nodes(),
                    nodes.contains_key(id),
                    n == record.children.len(),
                    cs == record.children@,
                    cs == nodes[id].children,
                    id < self.next(),
                    out@ == old(out)@ + stop_orders(nodes, id, cs.take(i as int), self.next()),
            {
                let c: u64 = record.children[i];
                proof {
                    assert(node_ok(nodes, id));
                    assert(cs.contains(cs[i as int]));
                    assert(cs.take(i + 1).drop_last() =~= cs.take(i as int));
                    assert(cs.take(i + 1).last() == c);
                    assert(nodes.contains_key(c) && c > id);
                    assert(1 <= c < self.next());
                }
                let ghost before = out@;
                self.append_order(c, out);
                assert(out@ =~= old(out)@ + stop_orders(
                    nodes,
                    id,
                    cs.take(i + 1),
                    self.next(),
                ));
            }
            assert(cs.take(n as int) =~= cs);
        }
        out.push(id);
        assert(out@ =~= old(out)@ + stop_order(nodes, id, self.next()));
    }

    /// The scopes at and below one, children before their parents.
    pub fn order_below(&self, id: ScopeId) -> (r: Result<Vec<u64>, Error>)
        requires
            self.wf(),
        ensures
            match r {
                Ok(order) => self.nodes().contains_key(id.0) && order@ == stop_order(
                    self.nodes(),
                    id.0,
                    self.next(),
                ),
                Err(e) => !self.nodes().contains_key(id.0) && e == Error::Closed,
            },
    {
        if !self.scopes.contains_key(&id.0) {
            return Err(Error::Closed);
        }
        let mut out: Vec<u64> = Vec::new();
        self.append_order(id.0, &mut out);
        assert(out@ =~= stop_order(self.nodes(), id.0, self.next()));
        Ok(out)
    }

    /// Begins to stop everything at and below a scope: first nothing new gets in anywhere, and
    /// only then is it said what to undo, children first, the latest first.
    pub fn begin_stop(&mut self, id: ScopeId) -> (r: Result<StopPlan<U>, Error>)
        requires
            old(self).wf(),
        ensures
            final(self).wf(),
            final(self).next() == old(self).next(),
            final(self).next_gen() == old(self).next_gen(),
            r is Ok <==> old(self).nodes().contains_key(id.0),
            match r {
                Err(e) => e == Error::Closed && final(self).nodes() == old(self).nodes(),
                Ok(plan) => {
                    let a = old(self).nodes();
                    let b = final(self).nodes();
                    let order = stop_order(a, id.0, old(self).next());
                    &&& plan.order@ == order
                    &&& plan.undos@ == undos_of(a, order)
                    &&& same_shape(b, a)
                    &&& forall|k: u64| #[trigger]
                        a.contains_key(k) ==> b[k].local == if order.contains(k) {
                            stop_begun(a[k].local)
                        } else {
                            a[k].local
                        }
                },
            },
    {
        let order = match self.order_below(id) {
            Ok(order) => order,
            Err(e) => {
                return Err(e);
            },
        };
        let ghost a = self.nodes();
        let ghost next = self.next();
        proof {
            lemma_order(a, id.0, next);
        }
        let n: usize = order.len();
        for i in 0..n
            invariant
                n == order.len(),
                self.wf(),
                self.next() == next,
                self.next_gen() == old(self).next_gen(),
                same_shape(self.nodes(), a),
                order@.no_duplicates(),
                forall|x: u64| #[trigger] order@.contains(x) ==> a.contains_key(x),
                forall|k: u64| #[trigger]
                    a.contains_key(k) ==> self.nodes()[k].local == if order@.take(
                        i as int,
                    ).contains(k) {
                        stopped(a[k].local)
                    } else {
                        a[k].local
                    },
        {
            let ghost now = self.nodes();
            proof {
                assert(order@.contains(order@[i as int]));
                lemma_take(order@, i as int);
            }
            self.mark_stopping(ScopeId(order[i]));
            proof {
                assert(self.nodes().dom() =~= a.dom());
            }
        }
        let ghost gated = self.nodes();
        proof {
            assert(order@.take(n as int) =~= order@);
        }
        let mut undos: Vec<(u64, U)> = Vec::new();
        for i in 0..n
            invariant
                n == order.len(),
                self.wf(),
                self.next() == next,
                self.next_gen() == old(self).next_gen(),
                same_shape(self.nodes(), a),
                order@.no_duplicates(),
                forall|x: u64| #[trigger] order@.contains(x) ==> a.contains_key(x),
                undos@ == undos_of(a, order@.take(i as int)),
                forall|k: u64| #[trigger]
                    a.contains_key(k) ==> self.nodes()[k].local == if order@.take(
                        i as int,
                    ).contains(k) {
                        stop_begun(a[k].local)
                    } else if order@.contains(k) {
                        stopped(a[k].local)
                    } else {
                        a[k].local
                    },
        {
            let k: u64 = order[i];
            let ghost was = undos@;
            proof {
                assert(order@.contains(order@[i as int]));
                lemma_take(order@, i as int);
                assert(order@.take(i + 1).drop_last() =~= order@.take(i as int));
                assert(order@.take(i + 1).last() == k);
                assert(!order@.take(i as int).contains(k));
                assert(to_undo(stopped(a[k].local)) == to_undo(a[k].local));
            }
            let us = self.begin_close(ScopeId(k));
            push_tagged(&mut undos, k, us);
            proof {
                assert(undos@ =~= undos_of(a, order@.take(i + 1)));
                assert(self.nodes().dom() =~= a.dom());
            }
        }
        proof {
            assert(order@.take(n as int) =~= order@);
        }
        Ok(StopPlan { order, undos })
    }

    /// Begins to dispose of everything at and below a scope. Returns what is to be destroyed.
    pub fn finish_dispose(&mut self, id: ScopeId) -> (r: Result<StopPlan<U>, Error>)
        requires
            old(self).wf(),
        ensures
            final(self).wf(),
            final(self).next() == old(self).next(),
            final(self).next_gen() == old(self).next_gen(),
            r is Ok <==> old(self).nodes().contains_key(id.0),
            match r {
                Err(e) => e == Error::Closed && final(self).nodes() == old(self).nodes(),
                Ok(plan) => {
                    let a = old(self).nodes();
                    let b = final(self).nodes();
                    let order = stop_order(a, id.0, old(self).next());
                    &&& plan.order@ == order
                    &&& plan.undos@ == destroys_of(a, order)
                    &&& same_shape(b, a)
                    &&& forall|k: u64| #[trigger]
                        a.contains_key(k) ==> b[k].local == if order.contains(k) {
                            destroy_begun(a[k].local)
                        } else {
                            a[k].local
                        }
                },
            },
    {
        let order = match self.order_below(id) {
            Ok(order) => order,
            Err(e) => {
                return Err(e);
            },
        };
        let ghost a = self.nodes();
        let ghost next = self.next();
        proof {
            lemma_order(a, id.0, next);
        }
        let mut destroys: Vec<(u64, U)> = Vec::new();
        let n: usize = order.len();
        for i in 0..n
            invariant
                n == order.len(),
                self.wf(),
                self.next() == next,
                self.next_gen() == old(self).next_gen(),
                same_shape(self.nodes(), a),
                order@.no_duplicates(),
                forall|x: u64| #[trigger] order@.contains(x) ==> a.contains_key(x),
                destroys@ == destroys_of(a, order@.take(i as int)),
                forall|k: u64| #[trigger]
                    a.contains_key(k) ==> self.nodes()[k].local == if order@.take(
                        i as int,
                    ).contains(k) {
                        destroy_begun(a[k].local)
                    } else {
                        a[k].local
                    },
        {
            let k: u64 = order[i];
            proof {
                assert(order@.contains(order@[i as int]));
                lemma_take(order@, i as int);
                assert(order@.take(i + 1).drop_last() =~= order@.take(i as int));
                assert(order@.take(i + 1).last() == k);
                assert(!order@.take(i as int).contains(k));
            }
            let us = self.begin_destroy(ScopeId(k));
            push_tagged(&mut destroys, k, us);
            proof {
                assert(destroys@ =~= destroys_of(a, order@.take(i + 1)));
                assert(self.nodes().dom() =~= a.dom());
            }
        }
        proof {
            assert(order@.take(n as int) =~= order@);
        }
        Ok(StopPlan { order, undos: destroys })
    }

    /// Gives up waiting for what these scopes started.
    pub fn quarantine_all(&mut self, order: &Vec<u64>)
        requires
            old(self).wf(),
            forall|x: u64| #[trigger] order@.contains(x) ==> old(self).nodes().contains_key(x),
        ensures
            final(self).wf(),
            final(self).next() == old(self).next(),
            final(self).next_gen() == old(self).next_gen(),
            same_shape(final(self).nodes(), old(self).nodes()),
            forall|k: u64| #[trigger]
                old(self).nodes().contains_key(k) ==> final(self).nodes()[k].local
                    == if order@.contains(k) {
                    quarantined(old(self).nodes()[k].local)
                } else {
                    old(self).nodes()[k].local
                },
    {
        let ghost a = self.nodes();
        let n: usize = order.len();
        for i in 0..n
            invariant
                n == order.len(),
                self.wf(),
                self.next() == old(self).next(),
                self.next_gen() == old(self).next_gen(),
                a == old(self).nodes(),
                same_shape(self.nodes(), a),
                forall|x: u64| #[trigger] order@.contains(x) ==> a.contains_key(x),
                forall|k: u64| #[trigger]
                    a.contains_key(k) ==> self.nodes()[k].local == if order@.take(
                        i as int,
                    ).contains(k) {
                        quarantined(a[k].local)
                    } else {
                        a[k].local
                    },
        {
            proof {
                assert(order@.contains(order@[i as int]));
                lemma_take(order@, i as int);
            }
            self.quarantine(ScopeId(order[i]));
            proof {
                assert(self.nodes().dom() =~= a.dom());
            }
        }
        assert(order@.take(n as int) =~= order@);
    }
}

proof fn lemma_take(s: Seq<u64>, i: int)
    requires
        0 <= i < s.len(),
    ensures
        forall|x: u64| #[trigger]
            s.take(i + 1).contains(x) <==> s.take(i).contains(x) || x == s[i],
        s.no_duplicates() ==> !s.take(i).contains(s[i]),
{
    assert forall|x: u64| #[trigger] s.take(i + 1).contains(x) <==> s.take(i).contains(x) || x
        == s[i] by {
        if s.take(i).contains(x) {
            assert(s.take(i + 1)[s.take(i).index_of(x)] == x);
        }
        if s.take(i + 1).contains(x) && x != s[i] {
            assert(s.take(i)[s.take(i + 1).index_of(x)] == x);
        }
        assert(s.take(i + 1)[i] == s[i]);
    }
    if s.no_duplicates() && s.take(i).contains(s[i]) {
        assert(s[s.take(i).index_of(s[i])] == s[i]);
    }
}

/// By the time anything is undone, no scope at or below the one that stops is open any more.
pub proof fn gates_close_before_anything_is_undone<U>(s: ScopeModel<U>)
    ensures
        stop_begun(s).phase != RuntimePhase::Open,
        !lease_of(stop_begun(s)).open,
        stop_begun(stop_begun(s)) == stop_begun(s),
{
}

// ---- removing -----------------------------------------------------------------------------

/// The list without one id.
pub open spec fn without_id(ids: Seq<u64>, id: u64) -> Seq<u64>
    decreases ids.len(),
{
    if ids.len() == 0 {
        ids
    } else if ids.last() == id {
        without_id(ids.drop_last(), id)
    } else {
        without_id(ids.drop_last(), id).push(ids.last())
    }
}

proof fn lemma_without_id(ids: Seq<u64>, id: u64)
    ensures
        forall|x: u64| #[trigger]
            without_id(ids, id).contains(x) <==> ids.contains(x) && x != id,
        ids.no_duplicates() ==> without_id(ids, id).no_duplicates(),
    decreases ids.len(),
{
    if ids.len() > 0 {
        let front = ids.drop_last();
        let last = ids.last();
        lemma_without_id(front, id);
        let rest = without_id(front, id);
        let out = without_id(ids, id);
        assert forall|x: u64| ids.contains(x) <==> front.contains(x) || x == last by {
            if front.contains(x) {
                assert(ids[front.index_of(x)] == x);
            }
            if ids.contains(x) && x != last {
                assert(front[ids.index_of(x)] == x);
            }
            assert(ids[ids.len() - 1] == last);
        }
        assert forall|x: u64| #[trigger] out.contains(x) <==> ids.contains(x) && x != id by {
            if last != id {
                if rest.contains(x) {
                    assert(out[rest.index_of(x)] == x);
                }
                if out.contains(x) && x != last {
                    assert(rest[out.index_of(x)] == x);
                    assert(rest.contains(x));
                }
                assert(out[out.len() - 1] == last);
            } else if out.contains(x) {
                assert(rest.contains(x));
            }
        }
        if ids.no_duplicates() {
            assert(front.no_duplicates()) by {
                assert forall|i: int, j: int|
                    0 <= i < front.len() && 0 <= j < front.len() && i != j implies front[i]
                        != front[j] by {
                    assert(ids[i] != ids[j]);
                }
            }
            if last != id {
                assert forall|i: int, j: int|
                    0 <= i < out.len() && 0 <= j < out.len() && i < j implies out[i] != out[j] by {
                    if j == rest.len() {
                        assert(rest.contains(rest[i]));
                        let m = front.index_of(rest[i]);
                        assert(ids[m] != ids[ids.len() - 1]);
                    }
                }
            }
        }
    }
}

fn drop_id(ids: &mut Vec<u64>, id: u64)
    ensures
        final(ids)@ == without_id(old(ids)@, id),
{
    let mut out: Vec<u64> = Vec::new();
    let n: usize = ids.len();
    for i in 0..n
        invariant
            n == ids.len(),
            ids@ == old(ids)@,
            out@ == without_id(ids@.take(i as int), id),
    {
        assert(ids@.take(i + 1).drop_last() =~= ids@.take(i as int));
        if ids[i] != id {
            out.push(ids[i]);
        }
    }
    assert(ids@.take(n as int) =~= ids@);
    *ids = out;
}

/// The tree without everything at and below `id`.
pub open spec fn cut<U>(nodes: Map<u64, Node<U>>, id: u64, order: Seq<u64>) -> Map<u64, Node<U>> {
    let p = nodes[id].parent->0;
    nodes.insert(
        p,
        Node { children: without_id(nodes[p].children, id), ..nodes[p] },
    ).remove_keys(order.to_set())
}

proof fn lemma_cut<U>(nodes: Map<u64, Node<U>>, id: u64, next: u64)
    requires
        tree_ok(nodes, next),
        nodes.contains_key(id),
        id != ROOT,
    ensures
        tree_ok(cut(nodes, id, stop_order(nodes, id, next)), next),
        !stop_order(nodes, id, next).contains(nodes[id].parent->0),
{
    let order = stop_order(nodes, id, next);
    let after = cut(nodes, id, order);
    assert(node_ok(nodes, id));
    let p = nodes[id].parent->0;
    assert(nodes.contains_key(p) && p < id);
    assert(node_ok(nodes, p));
    lemma_without_id(nodes[p].children, id);
    a_scope_stops_with_all_below_it(nodes, id, next, p);
    if lies_below(nodes, p, id) {
        lemma_not_above(nodes, p, id);
    }
    a_scope_stops_with_all_below_it(nodes, id, next, ROOT);
    if lies_below(nodes, ROOT, id) {
        lemma_not_above(nodes, ROOT, id);
        assert(1 <= id);
    }
    assert forall|k: u64| #[trigger] after.contains_key(k) implies 1 <= k < next && node_ok(
        after,
        k,
    ) by {
        assert(nodes.contains_key(k));
        assert(!order.contains(k));
        assert(node_ok(nodes, k));
        a_scope_stops_with_all_below_it(nodes, id, next, k);
        assert forall|c: u64| #[trigger] after[k].children.contains(c) implies after.contains_key(c)
            && c > k && after[c].parent == Some(k) by {
            assert(nodes[k].children.contains(c));
            assert(nodes.contains_key(c));
            a_scope_stops_with_all_below_it(nodes, id, next, c);
            if lies_below(nodes, c, id) {
                assert(c != id);
                assert(lies_below(nodes, k, id));
            }
        }
        if let Some(q) = nodes[k].parent {
            assert(nodes.contains_key(q));
            a_scope_stops_with_all_below_it(nodes, id, next, q);
            if lies_below(nodes, q, id) {
                assert(lies_below(nodes, k, id));
            }
            assert(after[q].children.contains(k)) by {
                assert(nodes[q].children.contains(k));
                if q == p {
                    assert(k != id) by {
                        let last = order[order.len() - 1];
                        if k == id {
                            assert(lies_below(nodes, id, id));
                        }
                    }
                }
            }
        }
    }
}

impl<U> ScopeTree<U> {
    fn all_disposed(&self, order: &Vec<u64>) -> (r: bool)
        ensures
            r == forall|i: int|
                0 <= i < order.len() ==> (self.nodes().contains_key(#[trigger] order@[i])
                    ==> self.nodes()[order@[i]].local.phase == RuntimePhase::Disposed),
    {
        let n: usize = order.len();
        for i in 0..n
            invariant
                n == order.len(),
                forall|j: int|
                    0 <= j < i ==> (self.nodes().contains_key(#[trigger] order@[j])
                        ==> self.nodes()[order@[j]].local.phase == RuntimePhase::Disposed),
        {
            if let Some(record) = self.scopes.get(&order[i]) {
                if record.local.phase() != RuntimePhase::Disposed {
                    assert(self.nodes().contains_key(order@[i as int]));
                    return false;
                }
            }
        }
        true
    }

    /// Removes everything at and below a scope that was disposed of. The root and the scopes of
    /// services stay. Returns how many scopes there were.
    pub fn remove_disposed_subtree(&mut self, id: ScopeId) -> (r: Result<usize, Error>)
        requires
            old(self).wf(),
        ensures
            final(self).wf(),
            final(self).next() == old(self).next(),
            final(self).next_gen() == old(self).next_gen(),
            ({
                let a = old(self).nodes();
                let order = stop_order(a, id.0, old(self).next());
                let fixed = id.0 == ROOT || (a.contains_key(id.0) && a[id.0].kind
                    == ScopeKind::Service);
                let disposed = forall|i: int|
                    0 <= i < order.len() ==> a[#[trigger] order[i]].local.phase
                        == RuntimePhase::Disposed;
                match r {
                    Ok(n) => {
                        &&& !fixed
                        &&& a.contains_key(id.0)
                        &&& disposed
                        &&& n == order.len()
                        &&& final(self).nodes() == cut(a, id.0, order)
                    },
                    Err(e) => {
                        &&& final(self).nodes() == a
                        &&& fixed ==> is_invalid(
                            e,
                            "root and service scopes cannot be removed"@,
                        )
                        &&& !fixed && !a.contains_key(id.0) ==> e == Error::Closed
                        &&& !fixed && a.contains_key(id.0) ==> !disposed && is_invalid(
                            e,
                            "scope subtree is not disposed"@,
                        )
                    },
                }
            }),
    {
        let service: bool = match self.kind(id) {
            Some(k) => k == ScopeKind::Service,
            None => false,
        };
        if id.0 == ROOT || service {
            return Err(Error::Invalid("root and service scopes cannot be removed".to_owned()));
        }
        let order = match self.order_below(id) {
            Ok(order) => order,
            Err(e) => {
                return Err(e);
            },
        };
        let ghost a = self.nodes();
        let ghost next = self.next();
        proof {
            lemma_order(a, id.0, next);
            assert forall|i: int| 0 <= i < order.len() implies a.contains_key(
                #[trigger] order@[i],
            ) by {
                assert(order@.contains(order@[i]));
            }
        }
        if !self.all_disposed(&order) {
            return Err(Error::Invalid("scope subtree is not disposed".to_owned()));
        }
        proof {
            lemma_cut(a, id.0, next);
            assert(node_ok(a, id.0));
        }
        let ghost p = a[id.0].parent->0;
        let parent: Option<u64> = match self.scopes.get(&id.0) {
            Some(record) => record.parent,
            None => None,
        };
        if let Some(above) = parent {
            if let Some(record) = self.scopes.remove(&above) {
                let mut record = record;
                drop_id(&mut record.children, id.0);
                self.scopes.insert(above, record);
            }
        }
        let ghost b = a.insert(
            p,
            Node { children: without_id(a[p].children, id.0), ..a[p] },
        );
        assert(self.nodes() =~= b);
        let n: usize = order.len();
        for i in 0..n
            invariant
                n == order.len(),
                self.next() == next,
                self.next_gen() == old(self).next_gen(),
                self.nodes() == b.remove_keys(order@.take(i as int).to_set()),
        {
            let ghost now = self.nodes();
            self.scopes.remove(&order[i]);
            proof {
                lemma_take(order@, i as int);
                assert(self.nodes() =~= now.remove(order@[i as int]));
                assert(self.nodes() =~= b.remove_keys(order@.take(i + 1).to_set()));
            }
        }
        proof {
            assert(order@.take(n as int) =~= order@);
            assert(b.remove_keys(order@.take(0).to_set()) =~= b);
        }
        Ok(n)
    }
}

// ---- ending at once -----------------------------------------------------------------------

/// The scope once everything that it undoes was undone, where it closes, with what went wrong.
pub open spec fn closed_now<U>(s: ScopeModel<U>, errors: Seq<Error>) -> ScopeModel<U> {
    if s.closing && s.phase == RuntimePhase::Stopping {
        close_ended(s, errors)
    } else {
        s
    }
}

/// The errors of one scope among those of several.
pub open spec fn errors_of(errors: Seq<(u64, Error)>, id: u64) -> Seq<Error>
    decreases errors.len(),
{
    if errors.len() == 0 {
        Seq::empty()
    } else {
        let rest = errors_of(errors.drop_last(), id);
        if errors.last().0 == id {
            rest.push(errors.last().1)
        } else {
            rest
        }
    }
}

fn errors_in(errors: &Vec<(u64, Error)>, id: u64) -> (r: Vec<Error>)
    ensures
        r@ == errors_of(errors@, id),
{
    let mut out: Vec<Error> = Vec::new();
    let n: usize = errors.len();
    for i in 0..n
        invariant
            n == errors.len(),
            out@ == errors_of(errors@.take(i as int), id),
    {
        assert(errors@.take(i + 1).drop_last() =~= errors@.take(i as int));
        if errors[i].0 == id {
            out.push(errors[i].1.clone());
        }
    }
    assert(errors@.take(n as int) =~= errors@);
    out
}

/// The scope once everything that it destroys was destroyed.
pub open spec fn disposed_now<U>(s: ScopeModel<U>) -> ScopeModel<U> {
    ScopeModel { phase: RuntimePhase::Disposed, ..s }
}

pub(crate) proof fn lemma_same_order<U>(a: Map<u64, Node<U>>, b: Map<u64, Node<U>>, id: u64, next: u64)
    requires
        same_shape(b, a),
        tree_ok(a, next),
        a.contains_key(id),
    ensures
        stop_order(b, id, next) == stop_order(a, id, next),
    decreases next - id, 1nat, 0nat,
{
    assert(node_ok(a, id));
    assert(b[id].children == a[id].children);
    let cs = a[id].children;
    assert(cs.take(cs.len() as int) =~= cs);
    lemma_same_orders(a, b, id, cs.len() as int, next);
}

proof fn lemma_same_orders<U>(
    a: Map<u64, Node<U>>,
    b: Map<u64, Node<U>>,
    parent: u64,
    k: int,
    next: u64,
)
    requires
        same_shape(b, a),
        tree_ok(a, next),
        a.contains_key(parent),
        0 <= k <= a[parent].children.len(),
    ensures
        stop_orders(b, parent, a[parent].children.take(k), next) == stop_orders(
            a,
            parent,
            a[parent].children.take(k),
            next,
        ),
    decreases next - parent, 0nat, k,
{
    assert(node_ok(a, parent));
    let all = a[parent].children;
    if k > 0 {
        let c = all[k - 1];
        assert(all.take(k).last() == c);
        assert(all.take(k).drop_last() =~= all.take(k - 1));
        assert(all.contains(c));
        assert(a.contains_key(c) && c > parent);
        lemma_same_orders(a, b, parent, k - 1, next);
        lemma_same_order(a, b, c, next);
    }
}

proof fn lemma_undos_stay<U>(a: Map<u64, Node<U>>, b: Map<u64, Node<U>>, order: Seq<u64>)
    requires
        forall|i: int|
            0 <= i < order.len() ==> to_destroy(b[#[trigger] order[i]].local) == to_destroy(
                a[order[i]].local,
            ),
    ensures
        destroys_of(b, order) == destroys_of(a, order),
    decreases order.len(),
{
    if order.len() > 0 {
        let front = order.drop_last();
        assert forall|i: int| 0 <= i < front.len() implies to_destroy(b[#[trigger] front[i]].local)
            == to_destroy(a[front[i]].local) by {
            assert(front[i] == order[i]);
        }
        lemma_undos_stay(a, b, front);
        assert(order[order.len() - 1] == order.last());
    }
}

impl<U> ScopeTree<U> {
    fn is_closing(&self, id: u64) -> (r: bool)
        ensures
            r == (self.nodes().contains_key(id) && self.nodes()[id].local.closing
                && self.nodes()[id].local.phase == RuntimePhase::Stopping),
    {
        match self.scopes.get(&id) {
            Some(record) => record.local.closing && record.local.phase == RuntimePhase::Stopping,
            None => false,
        }
    }

    /// Everything that these scopes undo was undone, with these errors, each with its scope. Those
    /// that close are closed then; the others stay as they are, and those that are gone stay gone.
    pub fn end_stop(&mut self, order: &Vec<u64>, errors: &Vec<(u64, Error)>)
        requires
            old(self).wf(),
        ensures
            final(self).wf(),
            final(self).next() == old(self).next(),
            final(self).next_gen() == old(self).next_gen(),
            same_shape(final(self).nodes(), old(self).nodes()),
            forall|k: u64| #[trigger]
                old(self).nodes().contains_key(k) ==> final(self).nodes()[k].local
                    == if order@.contains(k) {
                    closed_now(old(self).nodes()[k].local, errors_of(errors@, k))
                } else {
                    old(self).nodes()[k].local
                },
    {
        let ghost a = self.nodes();
        let n: usize = order.len();
        for i in 0..n
            invariant
                n == order.len(),
                self.wf(),
                self.next() == old(self).next(),
                self.next_gen() == old(self).next_gen(),
                a == old(self).nodes(),
                same_shape(self.nodes(), a),
                forall|k: u64| #[trigger]
                    a.contains_key(k) ==> self.nodes()[k].local == if order@.take(
                        i as int,
                    ).contains(k) {
                        closed_now(a[k].local, errors_of(errors@, k))
                    } else {
                        a[k].local
                    },
        {
            proof {
                assert(order@.contains(order@[i as int]));
                lemma_take(order@, i as int);
            }
            if self.is_closing(order[i]) {
                let went_wrong = errors_in(errors, order[i]);
                self.end_close(ScopeId(order[i]), went_wrong);
            }
            proof {
                assert(self.nodes().dom() =~= a.dom());
            }
        }
        assert(order@.take(n as int) =~= order@);
    }

    fn dispose_each(&mut self, order: &Vec<u64>)
        requires
            old(self).wf(),
            forall|x: u64| #[trigger] order@.contains(x) ==> old(self).nodes().contains_key(x),
        ensures
            final(self).wf(),
            final(self).next() == old(self).next(),
            final(self).next_gen() == old(self).next_gen(),
            same_shape(final(self).nodes(), old(self).nodes()),
            forall|k: u64| #[trigger]
                old(self).nodes().contains_key(k) ==> final(self).nodes()[k].local
                    == if order@.contains(k) {
                    disposed_now(old(self).nodes()[k].local)
                } else {
                    old(self).nodes()[k].local
                },
    {
        let ghost a = self.nodes();
        let n: usize = order.len();
        for i in 0..n
            invariant
                n == order.len(),
                self.wf(),
                self.next() == old(self).next(),
                self.next_gen() == old(self).next_gen(),
                a == old(self).nodes(),
                same_shape(self.nodes(), a),
                forall|x: u64| #[trigger] order@.contains(x) ==> a.contains_key(x),
                forall|k: u64| #[trigger]
                    a.contains_key(k) ==> self.nodes()[k].local == if order@.take(
                        i as int,
                    ).contains(k) {
                        disposed_now(a[k].local)
                    } else {
                        a[k].local
                    },
        {
            proof {
                assert(order@.contains(order@[i as int]));
                lemma_take(order@, i as int);
                let l = self.nodes()[order@[i as int]].local;
                assert(l.errors + Seq::<Error>::empty() =~= l.errors);
            }
            self.end_destroy(ScopeId(order[i]), Vec::new());
            proof {
                assert(self.nodes().dom() =~= a.dom());
            }
        }
        assert(order@.take(n as int) =~= order@);
    }

    /// Disposes of everything at and below a scope, and marks it as disposed of. Returns what is
    /// to be destroyed.
    pub fn dispose_now(&mut self, id: ScopeId) -> (r: Result<StopPlan<U>, Error>)
        requires
            old(self).wf(),
        ensures
            final(self).wf(),
            final(self).next() == old(self).next(),
            final(self).next_gen() == old(self).next_gen(),
            r is Ok <==> old(self).nodes().contains_key(id.0),
            match r {
                Err(e) => e == Error::Closed && final(self).nodes() == old(self).nodes(),
                Ok(plan) => {
                    let a = old(self).nodes();
                    let b = final(self).nodes();
                    let order = stop_order(a, id.0, old(self).next());
                    &&& plan.order@ == order
                    &&& plan.undos@ == destroys_of(a, order)
                    &&& same_shape(b, a)
                    &&& forall|k: u64| #[trigger]
                        a.contains_key(k) ==> b[k].local == if order.contains(k) {
                            disposed_now(destroy_begun(a[k].local))
                        } else {
                            a[k].local
                        }
                },
            },
    {
        let ghost a = self.nodes();
        match self.finish_dispose(id) {
            Ok(plan) => {
                proof {
                    lemma_order(a, id.0, self.next());
                }
                self.dispose_each(&plan.order);
                Ok(plan)
            },
            Err(e) => Err(e),
        }
    }

    /// Stops, disposes of and removes everything at and below a scope. Returns what is to be
    /// undone and then what is to be destroyed; nothing where the scope cannot be removed.
    pub fn end_now(&mut self, id: ScopeId) -> (r: Option<(Vec<(u64, U)>, Vec<(u64, U)>)>)
        requires
            old(self).wf(),
        ensures
            final(self).wf(),
            final(self).next() == old(self).next(),
            final(self).next_gen() == old(self).next_gen(),
            r is Some <==> old(self).nodes().contains_key(id.0) && id.0 != ROOT && old(
                self,
            ).nodes()[id.0].kind != ScopeKind::Service,
            match r {
                None => final(self).nodes() == old(self).nodes(),
                Some((undos, destroys)) => {
                    let a = old(self).nodes();
                    let order = stop_order(a, id.0, old(self).next());
                    &&& undos@ == undos_of(a, order)
                    &&& destroys@ == destroys_of(a, order)
                    &&& final(self).nodes() == cut(a, id.0, order)
                },
            },
    {
        let ghost a = self.nodes();
        let ghost next = self.next();
        let service: bool = match self.kind(id) {
            Some(k) => k == ScopeKind::Service,
            None => {
                return None;
            },
        };
        if id.0 == ROOT || service {
            return None;
        }
        proof {
            lemma_order(a, id.0, next);
        }
        let ghost order = stop_order(a, id.0, next);
        let stop = match self.begin_stop(id) {
            Ok(plan) => plan,
            Err(_) => {
                return None;
            },
        };
        self.end_stop(&stop.order, &Vec::new());
        let ghost b = self.nodes();
        proof {
            lemma_same_order(a, b, id.0, next);
            assert forall|i: int| 0 <= i < order.len() implies to_destroy(
                b[#[trigger] order[i]].local,
            ) == to_destroy(a[order[i]].local) by {
                assert(order.contains(order[i]));
                let l = a[order[i]].local;
                assert(b[order[i]].local == closed_now(stop_begun(l), Seq::empty()));
            }
            lemma_undos_stay(a, b, order);
        }
        let plan = match self.finish_dispose(id) {
            Ok(plan) => plan,
            Err(_) => {
                return None;
            },
        };
        let ghost c = self.nodes();
        self.dispose_each(&plan.order);
        let ghost d = self.nodes();
        proof {
            lemma_same_order(a, d, id.0, next);
            assert forall|i: int| 0 <= i < order.len() implies d[
                #[trigger] order[i]
            ].local.phase == RuntimePhase::Disposed by {
                assert(order.contains(order[i]));
            }
        }
        let removed = self.remove_disposed_subtree(id);
        proof {
            let p = a[id.0].parent->0;
            assert(node_ok(a, id.0));
            lemma_cut(a, id.0, next);
            assert(self.nodes().dom() =~= a.dom().difference(order.to_set()));
            assert forall|k: u64| #[trigger] self.nodes().contains_key(k) implies self.nodes()[k]
                == cut(a, id.0, order)[k] by {
                assert(!order.contains(k));
                assert(d[k].local == a[k].local);
            }
            assert(self.nodes() =~= cut(a, id.0, order));
        }
        Some((stop.undos, plan.undos))
    }
}

// ---- in which order scopes stop ---------------------------------------------------------------

proof fn lemma_orders_grow<U>(nodes: Map<u64, Node<U>>, parent: u64, j: int, k: int, next: u64)
    requires
        0 <= j <= k <= nodes[parent].children.len(),
    ensures
        ({
            let some = stop_orders(nodes, parent, nodes[parent].children.take(j), next);
            let more = stop_orders(nodes, parent, nodes[parent].children.take(k), next);
            some.len() <= more.len() && forall|a: int|
                0 <= a < some.len() ==> #[trigger] more[a] == some[a]
        }),
    decreases k,
{
    if j < k {
        lemma_orders_grow(nodes, parent, j, k - 1, next);
        let all = nodes[parent].children;
        assert(all.take(k).drop_last() =~= all.take(k - 1));
        let some = stop_orders(nodes, parent, all.take(j), next);
        let mid = stop_orders(nodes, parent, all.take(k - 1), next);
        let more = stop_orders(nodes, parent, all.take(k), next);
        assert forall|a: int| 0 <= a < some.len() implies #[trigger] more[a] == some[a] by {
            assert(mid[a] == some[a]);
            assert(more[a] == mid[a]);
        }
    }
}

/// Of the children of a scope those that were made first stop first, and every one of them before
/// the scope itself.
pub proof fn older_children_stop_first<U>(
    nodes: Map<u64, Node<U>>,
    parent: u64,
    next: u64,
    i: int,
    j: int,
) -> (r: (int, int))
    requires
        tree_ok(nodes, next),
        nodes.contains_key(parent),
        0 <= i < j < nodes[parent].children.len(),
    ensures
        0 <= r.0 < r.1 < stop_order(nodes, parent, next).len() - 1,
        stop_order(nodes, parent, next)[r.0] == nodes[parent].children[i],
        stop_order(nodes, parent, next)[r.1] == nodes[parent].children[j],
        stop_order(nodes, parent, next).last() == parent,
{
    let all = nodes[parent].children;
    assert(node_ok(nodes, parent));
    let c = all[i];
    let d = all[j];
    assert(all.contains(c) && all.contains(d));
    lemma_order(nodes, c, next);
    lemma_order(nodes, d, next);
    lemma_order(nodes, parent, next);
    assert(stop_order(nodes, c, next).contains(stop_order(nodes, c, next).last()));
    lemma_child_in_order(nodes, parent, j, i, next);
    let before = stop_orders(nodes, parent, all.take(j), next);
    let a = before.index_of(c);
    let upto = stop_orders(nodes, parent, all.take(j + 1), next);
    assert(all.take(j + 1).drop_last() =~= all.take(j));
    assert(all.take(j + 1).last() == d);
    assert(upto == before + stop_order(nodes, d, next));
    let b = upto.len() - 1;
    assert(upto[b] == d);
    assert(upto[a] == before[a]);
    lemma_orders_grow(nodes, parent, j + 1, all.len() as int, next);
    assert(all.take(all.len() as int) =~= all);
    (a, b)
}

/// What scopes undo and destroy is done scope by scope in their order, and within each the latest
/// first.
pub proof fn the_latest_is_undone_first<U>(nodes: Map<u64, Node<U>>, order: Seq<u64>, id: u64)
    ensures
        undos_of(nodes, order.push(id)) == undos_of(nodes, order) + tagged(
            id,
            to_undo(nodes[id].local),
        ),
        undos_of(nodes, Seq::empty()).len() == 0,
        destroys_of(nodes, order.push(id)) == destroys_of(nodes, order) + tagged(
            id,
            to_destroy(nodes[id].local),
        ),
        destroys_of(nodes, Seq::empty()).len() == 0,
        nodes[id].local.phase != RuntimePhase::Disposed ==> to_destroy(nodes[id].local)
            == nodes[id].local.destroys.reverse(),
        nodes[id].local.phase == RuntimePhase::Disposed ==> to_destroy(nodes[id].local).len() == 0,
{
    assert(order.push(id).drop_last() =~= order);
}

/// A scope that is taken out of the tree leaves with all that stop with it, and its parent has one
/// child less; every other scope stays as it is.
pub proof fn taking_a_scope_out_leaves_the_others<U>(
    nodes: Map<u64, Node<U>>,
    id: u64,
    order: Seq<u64>,
    x: u64,
)
    requires
        nodes.contains_key(id),
        nodes[id].parent is Some,
        nodes.contains_key(nodes[id].parent->0),
        !order.contains(nodes[id].parent->0),
    ensures
        order.contains(x) ==> !cut(nodes, id, order).contains_key(x),
        !order.contains(x) && x != nodes[id].parent->0 ==> cut(nodes, id, order).contains_key(x)
            == nodes.contains_key(x) && (nodes.contains_key(x) ==> cut(nodes, id, order)[x]
            == nodes[x]),
        cut(nodes, id, order)[nodes[id].parent->0] == (Node {
            children: nodes[nodes[id].parent->0].children.filter(|c: u64| c != id),
            ..nodes[nodes[id].parent->0]
        }),
{
    let p = nodes[id].parent->0;
    lemma_ids_filtered(nodes[p].children, id);
    assert(order.to_set().contains(x) <==> order.contains(x));
    assert(!order.to_set().contains(p));
}

proof fn lemma_ids_filtered(ids: Seq<u64>, id: u64)
    ensures
        without_id(ids, id) == ids.filter(|c: u64| c != id),
    decreases ids.len(),
{
    reveal(Seq::filter);
    if ids.len() > 0 {
        lemma_ids_filtered(ids.drop_last(), id);
    }
}

/// The errors of a scope are those that carry its number, in their order.
pub proof fn errors_keep_their_order(errors: Seq<(u64, Error)>, id: u64)
    ensures
        errors_of(errors, id) == errors.filter(|e: (u64, Error)| e.0 == id).map_values(
            |e: (u64, Error)| e.1,
        ),
    decreases errors.len(),
{
    reveal(Seq::filter);
    let p = |e: (u64, Error)| e.0 == id;
    let g = |e: (u64, Error)| e.1;
    if errors.len() > 0 {
        errors_keep_their_order(errors.drop_last(), id);
        let front = errors.drop_last().filter(p);
        assert(front.push(errors.last()).map_values(g) =~= front.map_values(g).push(
            g(errors.last()),
        ));
    }
}

/// A scope can be closed while it is open or stopping and is not being closed already; it is then
/// no longer open, drains once that is done, keeps the errors, and is disposed of in the end.
pub proof fn a_scope_goes_from_open_to_disposed<U>(s: ScopeModel<U>, errors: Seq<Error>)
    ensures
        can_close(s) <==> !s.closing && (s.phase is Open || s.phase is Stopping),
        s.phase is Open ==> stopped(s) == (ScopeModel { phase: RuntimePhase::Stopping, ..s }),
        !(s.phase is Open) ==> stopped(s) == s,
        can_close(s) ==> close_begun(s).closing && close_begun(s).phase is Stopping && close_begun(
            s,
        ).undos.len() == 0 && close_begun(s).destroys == s.destroys,
        !can_close(s) ==> close_begun(s) == s && to_undo(s).len() == 0,
        close_ended(s, errors).phase is Draining && !close_ended(s, errors).closing,
        close_ended(s, errors).errors == s.errors + errors,
        destroy_ended(s, errors).phase is Disposed && destroy_ended(s, errors).errors == s.errors
            + errors,
        s.phase is Draining ==> quarantined(s).phase is Quarantined,
        !(s.phase is Draining) ==> quarantined(s) == s,
        s.phase is Stopping && s.closing ==> closed_now(s, errors) == close_ended(s, errors),
        !(s.phase is Stopping && s.closing) ==> closed_now(s, errors) == s,
        lease_of(s).open <==> s.phase is Open,
        lease_of(s).id == s.id && lease_of(s).generation == s.generation,
{
}

/// A new scope is open, has nothing in it, and is the last child of its parent, which is all that
/// changes.
pub proof fn a_new_scope_is_the_last_child<U>(
    nodes: Map<u64, Node<U>>,
    parent: u64,
    kind: ScopeKind,
    id: u64,
    generation: u64,
    x: u64,
)
    requires
        parent != id,
    ensures
        ({
            let m = with_child(nodes, parent, kind, id, generation);
            &&& m[id].kind == kind && m[id].parent == Some(parent) && m[id].children.len() == 0
            &&& m[id].local.id == ScopeId(id) && m[id].local.generation == generation
                && m[id].local.phase is Open && !m[id].local.closing
            &&& m[id].local.undos.len() == 0 && m[id].local.destroys.len() == 0
                && m[id].local.errors.len() == 0
            &&& m[parent] == (Node { children: nodes[parent].children.push(id), ..nodes[parent] })
            &&& x != id && x != parent ==> m.contains_key(x) == nodes.contains_key(x) && m[x] == nodes[x]
        }),
{
}

/// What a scope undoes and destroys is put behind what it has of each; its errors are handed out
/// once.
pub proof fn what_is_deferred_comes_last<U>(n: Node<U>, u: U)
    ensures
        with_undo(n, u).local.undos == n.local.undos.push(u) && with_undo(n, u).local.destroys
            == n.local.destroys && with_undo(n, u).children == n.children,
        with_destroy(n, u).local.destroys == n.local.destroys.push(u) && with_destroy(n, u).local.undos
            == n.local.undos && with_destroy(n, u).children == n.children,
        without_errors(n).local.errors.len() == 0 && without_errors(n).local.undos == n.local.undos,
        with_undo(n, u).local.phase == n.local.phase && with_destroy(n, u).local.phase == n.local.phase,
{
}

/// A scope takes children while it is there and open.
pub proof fn only_open_scopes_take_children<U>(nodes: Map<u64, Node<U>>, id: u64)
    ensures
        takes_children(nodes, id) <==> nodes.contains_key(id) && nodes[id].local.phase is Open,
        !(nodes[id].local.phase is Disposed) ==> destroy_begun(nodes[id].local).destroys.len() == 0,
        disposed_now(nodes[id].local).phase is Disposed,
{
}

} // verus!
