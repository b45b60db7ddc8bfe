//! Mounting, closing and draining panels.

use crate::panel_host::{
    has_own_scope, host_ok, is_ready, lemma_below_kept, lemma_host_kept, parents_kept, record_of,
    same_but_panels, scope_ended, scope_stopped, Activation, HostRecord, PanelHost,
    DRAIN_DEADLINE_MS,
};
use crate::plugin_api::{is_invalid, Error, InstanceKey, MountKey, ScopeId};
use crate::scopes::{
    a_scope_stops_with_all_below_it, closed_now, cut, destroys_of, errors_of, lemma_not_above,
    lemma_order, lemma_same_order, lies_below, node_ok, quarantined, same_shape, stop_order,
    takes_children, tree_ok, undos_of, with_child, Node, RuntimePhase, ScopeKind, ScopeTree,
    StopPlan, ROOT,
};
use crate::supervisor::DrainReport;
use vstd::prelude::*;

verus! {

/// No panel lies at or below the scope.
pub open spec fn holds_no_panel<U, S>(h: PanelHost<U, S>, scope: u64) -> bool {
    forall|id: u128| #[trigger]
        h.records@.contains_key(id) ==> !stop_order(
            h.scopes.nodes(),
            scope,
            h.scopes.next(),
        ).contains(h.records@[id].scope)
}

/// The other panels do not lie at or below the provider's scope of a panel.
proof fn lemma_others_stay<U, S>(h: PanelHost<U, S>, nodes: Map<u64, Node<U>>, next: u64, id: u128)
    requires
        host_ok(h),
        h.records@.contains_key(id),
        same_shape(nodes, h.scopes.nodes()),
        tree_ok(nodes, next),
    ensures
        forall|other: u128| #[trigger]
            h.records@.contains_key(other) && other != id ==> nodes.contains_key(
                h.records@[other].scope,
            ) && !stop_order(
                nodes,
                h.scopes.nodes()[h.records@[id].scope].parent->0,
                next,
            ).contains(h.records@[other].scope),
{
    let a = h.scopes.nodes();
    assert(has_own_scope(h, id));
    let p = a[h.records@[id].scope].parent->0;
    assert(node_ok(a, h.records@[id].scope));
    assert(nodes.dom().contains(p));
    assert forall|other: u128| #[trigger] h.records@.contains_key(other) && other
        != id implies nodes.contains_key(h.records@[other].scope) && !stop_order(
        nodes,
        p,
        next,
    ).contains(h.records@[other].scope) by {
        assert(has_own_scope(h, other));
        let s = h.records@[other].scope;
        assert(nodes.dom().contains(s));
        a_scope_stops_with_all_below_it(nodes, p, next, s);
        if lies_below(nodes, s, p) {
            lemma_below_kept(a, nodes, h.scopes.next(), s, p);
        }
    }
}

/// What has to be done to a panel that closes: it is unmounted, what its mount and it itself undo
/// is undone, the tasks of both are cancelled.
pub struct Closing<U> {
    pub unmount: Option<MountKey>,
    pub mount: Option<(u64, StopPlan<U>)>,
    pub scope: u64,
    pub plan: StopPlan<U>,
}

/// The scope of the mount stopped, where there is one.
pub open spec fn mount_stopped<U>(
    a: ScopeTree<U>,
    b: ScopeTree<U>,
    scope: Option<u64>,
    done: Option<(u64, StopPlan<U>)>,
) -> bool {
    match scope {
        Some(m) if a.nodes().contains_key(m) => done matches Some(d) && d.0 == m && scope_stopped(
            a,
            b,
            m,
            d.1,
        ),
        _ => b == a && done is None,
    }
}

/// A panel began to close.
pub open spec fn closing<U, S>(
    a: PanelHost<U, S>,
    b: PanelHost<U, S>,
    id: u128,
    now: u64,
    c: Closing<U>,
) -> bool {
    let r = a.records@[id];
    &&& b.records@ == a.records@.insert(
        id,
        HostRecord { mount_key: None, mount_scope: None, drain_started: Some(now), ..r },
    )
    &&& c.unmount == r.mount_key
    &&& c.scope == r.scope
    &&& exists|mid: ScopeTree<U>| #[trigger]
        mount_stopped(a.scopes, mid, r.mount_scope, c.mount) && scope_stopped(
            mid,
            b.scopes,
            r.scope,
            c.plan,
        )
    &&& same_but_panels(b, a)
}

/// A panel that was unmounted: what its mount undoes is undone, and its tasks are cancelled.
pub struct Detached<U> {
    pub unmount: MountKey,
    pub mount: Option<(u64, StopPlan<U>)>,
}

/// What these scopes undo was undone: those that closed are closed.
pub open spec fn stop_ended<U>(
    a: ScopeTree<U>,
    b: ScopeTree<U>,
    order: Seq<u64>,
    errors: Seq<(u64, Error)>,
) -> bool {
    &&& same_shape(b.nodes(), a.nodes())
    &&& b.next() == a.next()
    &&& b.next_gen() == a.next_gen()
    &&& forall|k: u64| #[trigger]
        a.nodes().contains_key(k) ==> b.nodes()[k].local == if order.contains(k) {
            closed_now(a.nodes()[k].local, errors_of(errors, k))
        } else {
            a.nodes()[k].local
        }
}

/// A scope can be removed: it is neither the root nor that of a service.
pub open spec fn is_removable<U>(nodes: Map<u64, Node<U>>, scope: u64) -> bool {
    scope != ROOT && nodes[scope].kind != ScopeKind::Service
}

/// Everything at and below a scope was disposed of, and removed where it can be.
pub open spec fn scope_dropped<U>(
    a: ScopeTree<U>,
    b: ScopeTree<U>,
    scope: u64,
    plan: StopPlan<U>,
) -> bool {
    exists|low: ScopeTree<U>| #[trigger]
        scope_ended(a, low, scope, plan) && b.next() == low.next() && b.next_gen()
            == low.next_gen() && b.nodes() == if is_removable(a.nodes(), scope) {
            cut(low.nodes(), scope, stop_order(low.nodes(), scope, low.next()))
        } else {
            low.nodes()
        }
}

/// A panel ended: its scope was disposed of, and then that of its provider, which was removed with
/// everything below it.
pub open spec fn panel_ended<U>(
    a: ScopeTree<U>,
    b: ScopeTree<U>,
    scope: u64,
    panel: StopPlan<U>,
    provider: StopPlan<U>,
) -> bool {
    exists|mid: ScopeTree<U>| #[trigger]
        scope_ended(a, mid, scope, panel) && scope_dropped(
            mid,
            b,
            a.nodes()[scope].parent->0,
            provider,
        )
}

/// A mount that came to its end: this is to be destroyed. Says how many scopes were removed, or why
/// none was.
pub struct Unmounted<U> {
    pub plan: StopPlan<U>,
    pub removed: Result<usize, Error>,
}

/// What one look at a panel that ends showed.
pub enum PollStep<U> {
    /// It does not end, or has time left.
    Waiting,
    /// It takes too long: it is not waited for any longer, and not forgotten either.
    Overdue,
    /// It has ended: this is to be destroyed, of the panel first and then of its provider.
    Ended { panel: StopPlan<U>, provider: Option<StopPlan<U>> },
}

impl<U, S> PanelHost<U, S> {
    /// Gives up a scope that holds no panel yet: one of a panel that could not be made, or of a
    /// mount that failed. Returns what is to be undone and what is to be destroyed.
    pub fn abandon(&mut self, scope: u64) -> (r: Option<(Vec<(u64, U)>, Vec<(u64, U)>)>)
        requires
            host_ok(*old(self)),
            holds_no_panel(*old(self), scope),
        ensures
            host_ok(*final(self)),
            final(self).records@ == old(self).records@,
            same_but_panels(*final(self), *old(self)),
            r is Some <==> old(self).scopes.nodes().contains_key(scope) && scope != ROOT && old(
                self,
            ).scopes.nodes()[scope].kind != ScopeKind::Service,
            match r {
                None => final(self).scopes.nodes() == old(self).scopes.nodes(),
                Some((undos, destroys)) => {
                    let a = old(self).scopes.nodes();
                    let order = stop_order(a, scope, old(self).scopes.next());
                    &&& undos@ == undos_of(a, order)
                    &&& destroys@ == destroys_of(a, order)
                    &&& final(self).scopes.nodes() == cut(a, scope, order)
                },
            },
            final(self).scopes.next() == old(self).scopes.next(),
            final(self).scopes.next_gen() == old(self).scopes.next_gen(),
    {
        let ghost a = self.scopes.nodes();
        let ghost order = stop_order(a, scope, self.scopes.next());
        let r = self.scopes.end_now(ScopeId(scope));
        proof {
            assert forall|id: u128| #[trigger]
                self.records@.contains_key(id) implies self.scopes.nodes().contains_key(
                self.records@[id].scope,
            ) by {
                assert(has_own_scope(*old(self), id));
                assert(!order.contains(self.records@[id].scope));
                if r is Some {
                    assert(self.scopes.nodes().dom().contains(self.records@[id].scope));
                }
            }
            assert(parents_kept(a, self.scopes.nodes()));
            lemma_host_kept(*old(self), *self);
        }
        r
    }

    /// Disposes of everything at and below a scope, and removes it where it can be.
    fn drop_scope(&mut self, scope: u64) -> (r: Option<Unmounted<U>>)
        requires
            old(self).scopes.wf(),
        ensures
            final(self).scopes.wf(),
            final(self).records@ == old(self).records@,
            same_but_panels(*final(self), *old(self)),
            r is Some <==> old(self).scopes.nodes().contains_key(scope),
            match r {
                None => final(self).scopes == old(self).scopes,
                Some(u) => {
                    &&& scope_dropped(old(self).scopes, final(self).scopes, scope, u.plan)
                    &&& u.removed is Ok <==> is_removable(old(self).scopes.nodes(), scope)
                    &&& match u.removed {
                        Ok(n) => n == u.plan.order.len(),
                        Err(e) => is_invalid(e, "root and service scopes cannot be removed"@),
                    }
                },
            },
            parents_kept(old(self).scopes.nodes(), final(self).scopes.nodes()),
            forall|k: u64| #[trigger]
                old(self).scopes.nodes().contains_key(k) && !stop_order(
                    old(self).scopes.nodes(),
                    scope,
                    old(self).scopes.next(),
                ).contains(k) ==> final(self).scopes.nodes().contains_key(k),
    {
        let ghost a = self.scopes;
        if self.scopes.phase(ScopeId(scope)).is_none() {
            return None;
        }
        let ghost order = stop_order(a.nodes(), scope, a.next());
        let plan = match self.scopes.dispose_now(ScopeId(scope)) {
            Ok(plan) => plan,
            Err(_) => {
                return None;
            },
        };
        let ghost low = self.scopes;
        proof {
            assert(scope_ended(a, low, scope, plan));
            lemma_same_order(a.nodes(), low.nodes(), scope, a.next());
            lemma_order(a.nodes(), scope, a.next());
            assert forall|i: int| 0 <= i < order.len() implies low.nodes()[
                #[trigger] order[i]
            ].local.phase == RuntimePhase::Disposed by {
                assert(order.contains(order[i]));
            }
            assert(low.nodes().dom().contains(scope));
        }
        let removed = self.scopes.remove_disposed_subtree(ScopeId(scope));
        proof {
            assert(a.nodes().contains_key(scope));
            assert(node_ok(a.nodes(), scope));
            assert(scope_dropped(a, self.scopes, scope, plan));
            assert forall|k: u64| #[trigger]
                a.nodes().contains_key(k) && !order.contains(k) implies self.scopes.nodes().contains_key(
                k,
            ) by {
                assert(low.nodes().dom().contains(k));
            }
        }
        Some(Unmounted { plan, removed })
    }

    /// Begins to close a panel. Nothing happens where there is none, or it ends already.
    pub fn close_panel(&mut self, id: u128, now: u64) -> (r: Option<Closing<U>>)
        requires
            host_ok(*old(self)),
        ensures
            host_ok(*final(self)),
            r is Some <==> old(self).records@.contains_key(id) && old(
                self,
            ).records@[id].drain_started is None,
            match r {
                None => final(self).records@ == old(self).records@ && final(self).scopes == old(
                    self,
                ).scopes && same_but_panels(*final(self), *old(self)),
                Some(c) => closing(*old(self), *final(self), id, now, c),
            },
    {
        let ghost a = *self;
        let (unmount, mount_scope, scope) = match self.records.get(&id) {
            Some(record) => {
                if record.drain_started.is_some() {
                    return None;
                }
                (record.mount_key, record.mount_scope, record.scope)
            },
            None => {
                return None;
            },
        };
        if let Some(record) = self.records.remove(&id) {
            let mut record = record;
            record.mount_key = None;
            record.mount_scope = None;
            record.drain_started = Some(now);
            self.records.insert(id, record);
        }
        assert(self.records@ =~= a.records@.insert(
            id,
            HostRecord {
                mount_key: None,
                mount_scope: None,
                drain_started: Some(now),
                ..a.records@[id]
            },
        ));
        let mount: Option<(u64, StopPlan<U>)> = self.stop_mount(mount_scope);
        let ghost mid = self.scopes;
        assert(has_own_scope(a, id));
        assert(mid.nodes().contains_key(scope));
        let plan = match self.scopes.begin_stop(ScopeId(scope)) {
            Ok(plan) => plan,
            Err(_) => StopPlan { order: Vec::new(), undos: Vec::new() },
        };
        proof {
            assert(mount_stopped(a.scopes, mid, a.records@[id].mount_scope, mount));
            assert(scope_stopped(mid, self.scopes, scope, plan));
            lemma_host_kept(a, *self);
        }
        Some(Closing { unmount, mount, scope, plan })
    }

    /// What a panel or a mount that stops undoes was undone, with these errors, each with its scope:
    /// from then on only its tasks are waited for.
    pub fn end_stop(&mut self, order: &Vec<u64>, errors: &Vec<(u64, Error)>)
        requires
            host_ok(*old(self)),
        ensures
            host_ok(*final(self)),
            final(self).records@ == old(self).records@,
            same_but_panels(*final(self), *old(self)),
            stop_ended(old(self).scopes, final(self).scopes, order@, errors@),
    {
        self.scopes.end_stop(order, errors);
        proof {
            let a = old(self).scopes.nodes();
            assert forall|id: u128| #[trigger]
                self.records@.contains_key(id) implies self.scopes.nodes().contains_key(
                self.records@[id].scope,
            ) by {
                assert(has_own_scope(*old(self), id));
                assert(a.dom().contains(self.records@[id].scope));
            }
            lemma_host_kept(*old(self), *self);
        }
    }

    fn stop_mount(&mut self, mount_scope: Option<u64>) -> (r: Option<(u64, StopPlan<U>)>)
        requires
            old(self).scopes.wf(),
        ensures
            final(self).scopes.wf(),
            mount_stopped(old(self).scopes, final(self).scopes, mount_scope, r),
            final(self).scopes.nodes().dom() == old(self).scopes.nodes().dom(),
            parents_kept(old(self).scopes.nodes(), final(self).scopes.nodes()),
            final(self).records@ == old(self).records@,
            same_but_panels(*final(self), *old(self)),
    {
        match mount_scope {
            Some(m) => {
                if self.scopes.phase(ScopeId(m)).is_none() {
                    return None;
                }
                match self.scopes.begin_stop(ScopeId(m)) {
                    Ok(plan) => Some((m, plan)),
                    Err(_) => None,
                }
            },
            None => None,
        }
    }

    /// Prepares another mount of a panel: its scope and its key. Refused where there is no such
    /// panel, where it is mounted, where it ends, and where there are no numbers left. The scope
    /// stays where only the number of the mount is missing.
    pub fn begin_attach(&mut self, id: u128) -> (r: Result<(u64, MountKey), Error>)
        requires
            host_ok(*old(self)),
        ensures
            host_ok(*final(self)),
            final(self).records@ == old(self).records@,
            final(self).services == old(self).services,
            final(self).next_activation == old(self).next_activation,
            match record_of(*old(self), id) {
                None => r == Err::<(u64, MountKey), Error>(Error::Closed) && final(self).scopes
                    == old(self).scopes && final(self).next_mount == old(self).next_mount,
                Some(rec) => if rec.mount_key is Some || rec.drain_started is Some {
                    r == Err::<(u64, MountKey), Error>(Error::Duplicate) && final(self).scopes
                        == old(self).scopes && final(self).next_mount == old(self).next_mount
                } else {
                    let a = old(self).scopes;
                    let b = final(self).scopes;
                    let made = takes_children(a.nodes(), rec.scope) && a.next() < u64::MAX
                        && a.next_gen() < u64::MAX;
                    &&& b.nodes() == if made {
                        with_child(a.nodes(), rec.scope, ScopeKind::Mount, a.next(), a.next_gen())
                    } else {
                        a.nodes()
                    }
                    &&& b.next() == if takes_children(a.nodes(), rec.scope) && a.next() < u64::MAX {
                        a.next() + 1
                    } else {
                        a.next() as int
                    }
                    &&& b.next_gen() == if made {
                        a.next_gen() + 1
                    } else {
                        a.next_gen() as int
                    }
                    &&& final(self).next_mount == if r is Ok {
                        old(self).next_mount + 1
                    } else {
                        old(self).next_mount as int
                    }
                    &&& r == if made && old(self).next_mount < u64::MAX {
                        Ok::<(u64, MountKey), Error>(
                            (
                                a.next(),
                                MountKey {
                                    instance: InstanceKey { id, activation: rec.activation },
                                    generation: old(self).next_mount,
                                },
                            ),
                        )
                    } else if takes_children(a.nodes(), rec.scope) {
                        Err(Error::Exhausted)
                    } else {
                        Err(Error::Closed)
                    }
                },
            },
    {
        let ghost a = self.scopes.nodes();
        let (scope, activation) = match self.records.get(&id) {
            Some(record) => {
                if record.mount_key.is_some() || record.drain_started.is_some() {
                    return Err(Error::Duplicate);
                }
                (record.scope, record.activation)
            },
            None => {
                return Err(Error::Closed);
            },
        };
        proof {
            assert(has_own_scope(*old(self), id));
        }
        let mount: ScopeId = match self.scopes.create(ScopeId(scope), ScopeKind::Mount) {
            Ok(s) => s,
            Err(e) => {
                proof {
                    lemma_host_kept(*old(self), *self);
                }
                return Err(e);
            },
        };
        proof {
            lemma_host_kept(*old(self), *self);
        }
        let generation: u64 = self.next_mount;
        if generation == u64::MAX {
            return Err(Error::Exhausted);
        }
        self.next_mount = generation + 1;
        let key = MountKey { instance: InstanceKey { id, activation }, generation };
        Ok((mount.0, key))
    }

    /// A panel was mounted.
    pub fn end_attach(&mut self, id: u128, scope: u64, key: MountKey)
        requires
            host_ok(*old(self)),
        ensures
            host_ok(*final(self)),
            final(self).scopes == old(self).scopes,
            same_but_panels(*final(self), *old(self)),
            final(self).records@ == if old(self).records@.contains_key(id) {
                old(self).records@.insert(
                    id,
                    HostRecord {
                        mount_scope: Some(scope),
                        mount_key: Some(key),
                        ..old(self).records@[id]
                    },
                )
            } else {
                old(self).records@
            },
    {
        if let Some(record) = self.records.remove(&id) {
            let mut record = record;
            record.mount_scope = Some(scope);
            record.mount_key = Some(key);
            self.records.insert(id, record);
            proof {
                assert(self.records@ =~= old(self).records@.insert(
                    id,
                    HostRecord {
                        mount_scope: Some(scope),
                        mount_key: Some(key),
                        ..old(self).records@[id]
                    },
                ));
                assert forall|k: u128| #[trigger]
                    self.records@.contains_key(k) implies self.scopes.nodes().contains_key(
                    self.records@[k].scope,
                ) by {
                    assert(has_own_scope(*old(self), k));
                }
                lemma_host_kept(*old(self), *self);
            }
        } else {
            assert(self.records@ =~= old(self).records@);
        }
    }

    /// Unmounts a panel. Nothing happens where it is not mounted.
    pub fn detach_mount(&mut self, id: u128) -> (r: Result<Option<Detached<U>>, Error>)
        requires
            host_ok(*old(self)),
        ensures
            host_ok(*final(self)),
            same_but_panels(*final(self), *old(self)),
            match record_of(*old(self), id) {
                None => r == Err::<Option<Detached<U>>, Error>(Error::Closed) && final(self).records@
                    == old(self).records@ && final(self).scopes == old(self).scopes,
                Some(rec) => match rec.mount_key {
                    None => r == Ok::<Option<Detached<U>>, Error>(None) && final(self).records@
                        == old(self).records@ && final(self).scopes == old(self).scopes,
                    Some(key) => {
                        &&& final(self).records@ == old(self).records@.insert(
                            id,
                            HostRecord { mount_key: None, mount_scope: None, ..rec },
                        )
                        &&& r matches Ok(d) && d matches Some(d) && d.unmount == key
                            && mount_stopped(
                            old(self).scopes,
                            final(self).scopes,
                            rec.mount_scope,
                            d.mount,
                        )
                    },
                },
            },
    {
        let ghost a = *self;
        let (mount_key, mount_scope) = match self.records.get(&id) {
            Some(record) => (record.mount_key, record.mount_scope),
            None => {
                return Err(Error::Closed);
            },
        };
        let key: MountKey = match mount_key {
            Some(key) => key,
            None => {
                return Ok(None);
            },
        };
        if let Some(record) = self.records.remove(&id) {
            let mut record = record;
            record.mount_key = None;
            record.mount_scope = None;
            self.records.insert(id, record);
        }
        assert(self.records@ =~= a.records@.insert(
            id,
            HostRecord { mount_key: None, mount_scope: None, ..a.records@[id] },
        ));
        let mount = self.stop_mount(mount_scope);
        proof {
            assert forall|k: u128| #[trigger]
                self.records@.contains_key(k) implies self.scopes.nodes().contains_key(
                self.records@[k].scope,
            ) by {
                assert(has_own_scope(a, k));
                assert(a.scopes.nodes().dom().contains(self.records@[k].scope));
            }
            lemma_host_kept(a, *self);
        }
        Ok(Some(Detached { unmount: key, mount }))
    }

    /// Ends a mount that was detached, given what is left of its tasks: its scope is disposed of
    /// and removed. Nothing happens where something is left.
    pub fn end_detach(&mut self, scope: u64, left: DrainReport) -> (r: Result<
        Option<Unmounted<U>>,
        Error,
    >)
        requires
            host_ok(*old(self)),
            holds_no_panel(*old(self), scope),
        ensures
            host_ok(*final(self)),
            final(self).records@ == old(self).records@,
            same_but_panels(*final(self), *old(self)),
            if left.pending > 0 || left.native_pending > 0 {
                r == Ok::<Option<Unmounted<U>>, Error>(None) && final(self).scopes == old(
                    self,
                ).scopes
            } else if !old(self).scopes.nodes().contains_key(scope) {
                r == Err::<Option<Unmounted<U>>, Error>(Error::Closed) && final(self).scopes == old(
                    self,
                ).scopes
            } else {
                r matches Ok(u) && u matches Some(u) && {
                    &&& scope_dropped(old(self).scopes, final(self).scopes, scope, u.plan)
                    &&& u.removed is Ok <==> is_removable(old(self).scopes.nodes(), scope)
                    &&& match u.removed {
                        Ok(n) => n == u.plan.order.len(),
                        Err(e) => is_invalid(e, "root and service scopes cannot be removed"@),
                    }
                }
            },
    {
        if left.pending > 0 || left.native_pending > 0 {
            return Ok(None);
        }
        let ghost a = *self;
        match self.drop_scope(scope) {
            Some(u) => {
                proof {
                    assert forall|id: u128| #[trigger]
                        self.records@.contains_key(id) implies self.scopes.nodes().contains_key(
                        self.records@[id].scope,
                    ) by {
                        assert(has_own_scope(a, id));
                    }
                    lemma_host_kept(a, *self);
                }
                Ok(Some(u))
            },
            None => Err(Error::Closed),
        }
    }

    /// Looks at a panel that ends, given what is left of its tasks.
    pub fn poll_panel(&mut self, id: u128, left: DrainReport, now: u64) -> (r: PollStep<U>)
        requires
            host_ok(*old(self)),
        ensures
            host_ok(*final(self)),
            same_but_panels(*final(self), *old(self)),
            match record_of(*old(self), id) {
                Some(rec) if rec.drain_started is Some => if left.pending == 0
                    && left.native_pending == 0 {
                    &&& final(self).records@ == old(self).records@.remove(id)
                    &&& r matches PollStep::Ended { panel, provider } && provider matches Some(p)
                        && panel_ended(old(self).scopes, final(self).scopes, rec.scope, panel, p)
                } else if now - rec.drain_started->0 >= DRAIN_DEADLINE_MS {
                    &&& r is Overdue
                    &&& final(self).records@ == old(self).records@
                    &&& final(self).scopes.nodes() == old(self).scopes.nodes().insert(
                        rec.scope,
                        Node {
                            local: quarantined(old(self).scopes.nodes()[rec.scope].local),
                            ..old(self).scopes.nodes()[rec.scope]
                        },
                    )
                } else {
                    &&& r is Waiting
                    &&& final(self).records@ == old(self).records@
                    &&& final(self).scopes == old(self).scopes
                },
                _ => r is Waiting && final(self).records@ == old(self).records@
                    && final(self).scopes == old(self).scopes,
            },
    {
        let (scope, started) = match self.records.get(&id) {
            Some(record) => match record.drain_started {
                Some(t) => (record.scope, t),
                None => {
                    return PollStep::Waiting;
                },
            },
            None => {
                return PollStep::Waiting;
            },
        };
        if left.pending == 0 && left.native_pending == 0 {
            let ghost a = self.scopes;
            proof {
                assert(has_own_scope(*old(self), id));
                assert(node_ok(a.nodes(), scope));
            }
            let parent = self.scopes.parent(ScopeId(scope));
            let panel = match self.scopes.dispose_now(ScopeId(scope)) {
                Ok(plan) => plan,
                Err(_) => StopPlan { order: Vec::new(), undos: Vec::new() },
            };
            let ghost mid = self.scopes;
            assert(scope_ended(a, mid, scope, panel));
            let provider: Option<StopPlan<U>> = match parent {
                Some(p) => {
                    proof {
                        assert(mid.nodes().dom().contains(p.0));
                    }
                    match self.drop_scope(p.0) {
                        Some(dropped) => {
                            proof {
                                lemma_others_stay(*old(self), mid.nodes(), mid.next(), id);
                                assert(panel_ended(a, self.scopes, scope, panel, dropped.plan));
                            }
                            Some(dropped.plan)
                        },
                        None => None,
                    }
                },
                None => None,
            };
            self.records.remove(&id);
            proof {
                assert(self.records@ =~= old(self).records@.remove(id));
                assert(has_own_scope(*old(self), id));
                lemma_host_kept(*old(self), *self);
            }
            return PollStep::Ended { panel, provider };
        }
        if now >= started && now - started >= DRAIN_DEADLINE_MS {
            self.scopes.quarantine(ScopeId(scope));
            proof {
                lemma_host_kept(*old(self), *self);
            }
            return PollStep::Overdue;
        }
        PollStep::Waiting
    }

    /// The panels that are there and not wanted, in no particular order.
    pub fn stale_panels(&self, wanted: &Vec<u128>) -> (r: Vec<u128>)
        ensures
            forall|id: u128| #[trigger]
                r@.contains(id) <==> self.records@.contains_key(id) && !wanted@.contains(id),
            r@.no_duplicates(),
    {
        let ids = crate::tables::ids_of(&self.records);
        let mut out: Vec<u128> = Vec::new();
        let n: usize = ids.len();
        for i in 0..n
            invariant
                n == ids.len(),
                crate::tables::lists_keys(ids@, self.records@),
                out@.no_duplicates(),
                forall|id: u128| #[trigger]
                    out@.contains(id) <==> ids@.take(i as int).contains(id) && !wanted@.contains(
                        id,
                    ),
        {
            let id: u128 = ids[i];
            let ghost before = out@;
            proof {
                assert forall|x: u128| #[trigger]
                    ids@.take(i + 1).contains(x) <==> ids@.take(i as int).contains(x) || x == id by {
                    if ids@.take(i as int).contains(x) {
                        assert(ids@.take(i + 1)[ids@.take(i as int).index_of(x)] == x);
                    }
                    if ids@.take(i + 1).contains(x) && x != id {
                        assert(ids@.take(i as int)[ids@.take(i + 1).index_of(x)] == x);
                    }
                    assert(ids@.take(i + 1)[i as int] == id);
                }
                if ids@.take(i as int).contains(id) {
                    let j = ids@.take(i as int).index_of(id);
                    assert(ids@[j] == ids@[i as int]);
                }
            }
            if !crate::tabs::contains_id(wanted, id) {
                out.push(id);
                proof {
                    assert(!before.contains(id));
                    assert forall|x: u128| #[trigger] out@.contains(x) <==> before.contains(x) || x
                        == id by {
                        if before.contains(x) {
                            assert(out@[before.index_of(x)] == x);
                        }
                        if out@.contains(x) && x != id {
                            assert(before[out@.index_of(x)] == x);
                        }
                        assert(out@[out@.len() - 1] == id);
                    }
                    assert forall|a: int, b: int|
                        0 <= a < out@.len() && 0 <= b < out@.len() && a != b implies out@[a]
                            != out@[b] by {
                        if a < before.len() {
                            assert(before.contains(before[a]));
                        }
                        if b < before.len() {
                            assert(before.contains(before[b]));
                        }
                    }
                }
            }
        }
        assert(ids@.take(n as int) =~= ids@);
        out
    }

    /// The panel to tell how it is presented, or whether it is shown.
    pub fn panel_key(&self, id: u128) -> (r: Result<InstanceKey, Error>)
        ensures
            match record_of(*self, id) {
                Some(rec) => r == Ok::<InstanceKey, Error>(
                    InstanceKey { id, activation: rec.activation },
                ),
                None => r matches Err(e) && is_invalid(e, "unknown panel instance"@),
            },
    {
        match self.records.get(&id) {
            Some(record) => Ok(InstanceKey { id, activation: record.activation }),
            None => Err(Error::Invalid("unknown panel instance".to_owned())),
        }
    }

    /// Whether an event for a scope still has a panel to go to: one with this scope, open and of
    /// this generation.
    pub fn takes_event(&self, id: u128, scope: u64, generation: u64) -> (r: bool)
        ensures
            r == (record_of(*self, id) matches Some(rec) && rec.scope == scope
                && takes_children(self.scopes.nodes(), scope)
                && self.scopes.nodes()[scope].local.generation == generation),
    {
        match self.records.get(&id) {
            Some(record) => {
                if record.scope != scope {
                    return false;
                }
                match self.scopes.lease(ScopeId(scope)) {
                    Some(l) => l.open && l.generation == generation,
                    None => false,
                }
            },
            None => false,
        }
    }
}

/// A panel that closes takes no more events: its scope is not open from then on.
pub proof fn closed_panels_take_no_events<U, S>(
    a: PanelHost<U, S>,
    b: PanelHost<U, S>,
    id: u128,
    now: u64,
    c: Closing<U>,
)
    requires
        host_ok(a),
        host_ok(b),
        a.records@.contains_key(id),
        closing(a, b, id, now, c),
    ensures
        !takes_children(b.scopes.nodes(), a.records@[id].scope),
{
    let r = a.records@[id];
    let mid = choose|mid: ScopeTree<U>| #[trigger]
        mount_stopped(a.scopes, mid, r.mount_scope, c.mount) && scope_stopped(
            mid,
            b.scopes,
            r.scope,
            c.plan,
        );
    if takes_children(b.scopes.nodes(), r.scope) {
        let order = stop_order(mid.nodes(), r.scope, mid.next());
        assert(b.scopes.nodes().dom().contains(r.scope));
        assert(mid.nodes().contains_key(r.scope));
        assert(order.last() == r.scope) by {
            assert(b.scopes.next() == mid.next());
            assert(b.scopes.nodes().contains_key(r.scope));
        }
        assert(order[order.len() - 1] == r.scope);
        assert(order.contains(r.scope));
    }
}

/// An open panel that closes waits for its tasks only, once what it undoes was undone; where they
/// take too long it is set aside.
pub proof fn closed_panels_are_drained<U, S>(
    a: PanelHost<U, S>,
    b: PanelHost<U, S>,
    c: PanelHost<U, S>,
    id: u128,
    now: u64,
    closed: Closing<U>,
    errors: Seq<(u64, Error)>,
)
    requires
        host_ok(a),
        host_ok(b),
        a.records@.contains_key(id),
        takes_children(a.scopes.nodes(), a.records@[id].scope),
        !a.scopes.nodes()[a.records@[id].scope].local.closing,
        closing(a, b, id, now, closed),
        stop_ended(b.scopes, c.scopes, closed.plan.order@, errors),
    ensures
        c.scopes.nodes()[a.records@[id].scope].local.phase == RuntimePhase::Draining,
        quarantined(c.scopes.nodes()[a.records@[id].scope].local).phase
            == RuntimePhase::Quarantined,
{
    let r = a.records@[id];
    let mid = choose|mid: ScopeTree<U>| #[trigger]
        mount_stopped(a.scopes, mid, r.mount_scope, closed.mount) && scope_stopped(
            mid,
            b.scopes,
            r.scope,
            closed.plan,
        );
    assert(has_own_scope(a, id));
    assert(b.records@.contains_key(id));
    assert(has_own_scope(b, id));
    assert(b.scopes.nodes().dom().contains(r.scope));
    assert(mid.nodes().contains_key(r.scope));
    let order = closed.plan.order@;
    assert(order[order.len() - 1] == r.scope);
    assert(order.contains(r.scope));
}

/// A scope below that of a panel holds no panel: a mount can always be taken down.
pub proof fn mounts_hold_no_panel<U, S>(h: PanelHost<U, S>, id: u128, mount: u64)
    requires
        host_ok(h),
        h.records@.contains_key(id),
        h.scopes.nodes().contains_key(mount),
        mount != h.records@[id].scope,
        lies_below(h.scopes.nodes(), mount, h.records@[id].scope),
    ensures
        holds_no_panel(h, mount),
{
    let nodes = h.scopes.nodes();
    let next = h.scopes.next();
    let scope = h.records@[id].scope;
    assert(has_own_scope(h, id));
    assert(node_ok(nodes, scope));
    let p = nodes[scope].parent->0;
    assert forall|other: u128| #[trigger] h.records@.contains_key(other) implies !stop_order(
        nodes,
        mount,
        next,
    ).contains(h.records@[other].scope) by {
        let s = h.records@[other].scope;
        assert(has_own_scope(h, other));
        a_scope_stops_with_all_below_it(nodes, mount, next, s);
        if lies_below(nodes, s, mount) {
            lemma_not_above(nodes, mount, scope);
            lemma_not_above(nodes, s, mount);
            if other != id {
                lemma_below_all(nodes, s, mount, scope);
                assert(lies_below(nodes, p, p));
                lemma_below_all(nodes, s, scope, p);
            }
        }
    }
}

/// What lies below a scope lies below what that one lies below.
proof fn lemma_below_all<U>(nodes: Map<u64, Node<U>>, x: u64, mid: u64, top: u64)
    requires
        lies_below(nodes, x, mid),
        lies_below(nodes, mid, top),
    ensures
        lies_below(nodes, x, top),
    decreases x,
{
    if x != mid {
        lemma_below_all(nodes, nodes[x].parent->0, mid, top);
    }
}

/// Where an activation was prepared for a panel that is not there, its scopes hold no panel: they
/// can be given up.
pub proof fn new_scopes_hold_no_panel<U, S>(h: PanelHost<U, S>, act: Activation)
    requires
        host_ok(h),
        is_ready(h, act),
        !h.records@.contains_key(act.create.key.id),
    ensures
        holds_no_panel(h, act.provider_scope),
{
    let nodes = h.scopes.nodes();
    let next = h.scopes.next();
    assert(node_ok(nodes, act.instance_scope));
    assert forall|other: u128| #[trigger] h.records@.contains_key(other) implies !stop_order(
        nodes,
        act.provider_scope,
        next,
    ).contains(h.records@[other].scope) by {
        assert(has_own_scope(h, other));
        a_scope_stops_with_all_below_it(nodes, act.provider_scope, next, h.records@[other].scope);
    }
}

/// A panel that is closed gives up its mount and begins to end at that time; the other panels stay.
pub proof fn a_closed_panel_gives_up_its_mount<U, S>(
    a: PanelHost<U, S>,
    b: PanelHost<U, S>,
    id: u128,
    now: u64,
    c: Closing<U>,
)
    requires
        closing(a, b, id, now, c),
    ensures
        b.records@[id].drain_started == Some(now),
        b.records@[id].mount_key is None && b.records@[id].mount_scope is None,
        b.records@[id].provider == a.records@[id].provider && b.records@[id].activation
            == a.records@[id].activation && b.records@[id].scope == a.records@[id].scope,
        c.unmount == a.records@[id].mount_key,
        c.scope == a.records@[id].scope,
        a.records@[id].mount_scope is None ==> c.mount is None,
        a.records@[id].mount_scope is Some && a.scopes.nodes().contains_key(
            a.records@[id].mount_scope->0,
        ) ==> c.mount is Some && (c.mount->0).0 == a.records@[id].mount_scope->0,
        forall|other: u128|
            other != id ==> b.records@.contains_key(other) == a.records@.contains_key(other)
                && #[trigger] b.records@[other] == a.records@[other],
{
}

/// Every scope can be taken out of the tree but the root and those of services.
pub proof fn the_root_and_services_stay<U>(nodes: Map<u64, Node<U>>, scope: u64)
    ensures
        !is_removable(nodes, 1),
        nodes[scope].kind is Service ==> !is_removable(nodes, scope),
        scope != 1 && !(nodes[scope].kind is Service) ==> is_removable(nodes, scope),
{
}

/// A panel that ends is forgotten when nothing of it is left, is waited for up to five seconds, and
/// is not waited for any longer then; one that does not end stays.
pub proof fn an_ending_panel_is_forgotten_when_it_is_done<U, S>(
    h: &mut PanelHost<U, S>,
    id: u128,
    left: DrainReport,
    now: u64,
    r: PollStep<U>,
)
    requires
        call_ensures(PanelHost::<U, S>::poll_panel, (h, id, left, now), r),
        old(h).records@.contains_key(id),
    ensures
        ({
            let rec = old(h).records@[id];
            let done = left.pending == 0 && left.native_pending == 0;
            &&& rec.drain_started is None ==> r is Waiting && final(h).records@ == old(h).records@
            &&& rec.drain_started is Some ==> (r is Ended <==> done)
            &&& r is Ended ==> !final(h).records@.contains_key(id)
            &&& rec.drain_started is Some && !done ==> final(h).records@ == old(h).records@ && (
            r is Overdue <==> now - rec.drain_started->0 >= 5000)
        }),
{
}

} // verus!
