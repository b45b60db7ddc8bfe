//! The host of panels: which activation of a panel is there, and what has to end before the next
//! one begins.

use crate::model::PanelSpec;
use crate::plugin_api::{
    is_invalid, is_live, Capability, CreatePanel, Error, InstanceKey, LeaseState, MountKey,
    PanelConfig, ScopeHandle, ScopeId, StopReason,
};
use crate::scopes::{
    destroy_begun, destroys_of, same_shape, stop_begun, stop_order, takes_children, undos_of,
    with_child, Node, ScopeKind, ScopeTree, StopPlan, ROOT, disposed_now, lemma_not_above,
    lies_below, node_ok, quarantined, tree_ok,
};
use crate::text::{chars_of, string_of};
use crate::services::{has_service, service_of, used_by, Service, ServiceKey, ServiceRegistry};
use crate::supervisor::DrainReport;
use std::collections::HashMap;
use vstd::prelude::*;

verus! {

/// How long a panel may take to end, in milliseconds.
pub const DRAIN_DEADLINE_MS: u64 = 5000;

/// What `serde_json` makes of a text: the same value, written out in its compact form; none where
/// the text is no JSON value.
pub uninterp spec fn compact_json(text: Seq<char>) -> Option<Seq<u8>>;

/// `serde_json::from_str` to a `serde_json::Value`, and that value written out again by
/// `serde_json::to_vec`. The result is a function of the text alone; which bytes come out is not
/// stated.
#[verifier::external_body]
fn rewrite_json(text: &str) -> (r: Option<Vec<u8>>)
    ensures
        match r {
            Some(bytes) => Some(bytes@),
            None => None,
        } == compact_json(text@),
{
    match serde_json::from_str::<serde_json::Value>(text) {
        Ok(value) => match serde_json::to_vec(&value) {
            Ok(bytes) => Some(bytes),
            Err(_) => None,
        },
        Err(_) => None,
    }
}

/// The texts are JSON values that `serde_json` holds to be equal.
pub uninterp spec fn json_equal(a: Seq<char>, b: Seq<char>) -> bool;

/// `==` of `serde_json::Value`, on what `serde_json::from_str` reads from the texts; false where
/// one is no JSON value. The result is a function of the texts alone. `Value` is `Eq`, so where the
/// texts are equal the first one is equal to itself, and both are equal to the same texts. Which
/// values are equal is not stated.
#[verifier::external_body]
fn same_json(a: &str, b: &str) -> (r: bool)
    ensures
        r == json_equal(a@, b@),
        r ==> json_equal(a@, a@) && forall|c: Seq<char>| #[trigger]
            json_equal(a@, c) == json_equal(b@, c),
{
    let left = serde_json::from_str::<serde_json::Value>(a);
    let right = serde_json::from_str::<serde_json::Value>(b);
    match (left, right) {
        (Ok(x), Ok(y)) => x == y,
        _ => false,
    }
}

/// Two texts stand for the same settings.
pub open spec fn same_settings(a: Seq<char>, b: Seq<char>) -> bool {
    a == b || json_equal(a, b)
}

/// Two texts stand for the same settings as the same texts.
pub open spec fn interchangeable(a: Seq<char>, b: Seq<char>) -> bool {
    forall|c: Seq<char>| #[trigger] same_settings(a, c) == same_settings(b, c)
}

/// Whether two texts stand for the same settings.
fn compare_settings(a: &String, b: &String) -> (r: bool)
    ensures
        r == same_settings(a@, b@),
        r ==> interchangeable(a@, b@),
{
    if *a == *b {
        return true;
    }
    let r = same_json(a.as_str(), b.as_str());
    proof {
        if r {
            assert forall|c: Seq<char>| #[trigger] same_settings(a@, c) == same_settings(b@, c) by {
                assert(json_equal(a@, c) == json_equal(b@, c));
                assert(json_equal(a@, a@) == json_equal(b@, a@));
                assert(json_equal(a@, b@) == json_equal(b@, b@));
            }
        }
    }
    r
}

// ---- records ------------------------------------------------------------------------------

/// One activation of a panel.
#[derive(Debug, PartialEq, Eq)]
pub struct HostRecord {
    pub provider: String,
    /// The panel's settings, as they were asked for.
    pub config: String,
    pub activation: u64,
    pub scope: u64,
    pub mount_scope: Option<u64>,
    pub mount_key: Option<MountKey>,
    /// When it began to end, in milliseconds.
    pub drain_started: Option<u64>,
}

/// What is there of a panel that is asked for.
#[derive(Clone, Copy, Debug, PartialEq, Eq, Structural)]
pub enum Previous {
    /// Nothing.
    Absent,
    /// The same panel: it is used again.
    Same,
    /// Another activation, which has to end first.
    Other,
    /// An activation that has ended.
    Drained,
    /// An activation that is ending.
    Draining,
    /// An activation that takes too long to end.
    Overdue,
}

/// What is there of a panel, given whether its settings are those asked for and what is left of
/// its tasks.
pub open spec fn previous_of(
    record: Option<HostRecord>,
    provider: Seq<char>,
    alike: bool,
    left: DrainReport,
    now: u64,
) -> Previous {
    match record {
        None => Previous::Absent,
        Some(r) => match r.drain_started {
            None => if r.provider@ == provider && alike {
                Previous::Same
            } else {
                Previous::Other
            },
            Some(t) => if left.pending == 0 && left.native_pending == 0 {
                Previous::Drained
            } else if now - t >= DRAIN_DEADLINE_MS {
                Previous::Overdue
            } else {
                Previous::Draining
            },
        },
    }
}

/// What is there of a panel, given whether its settings are those asked for and what is left of
/// its tasks.
pub fn previous(
    record: Option<&HostRecord>,
    provider: &String,
    alike: bool,
    left: DrainReport,
    now: u64,
) -> (r: Previous)
    ensures
        r == previous_of(
            match record {
                Some(x) => Some(*x),
                None => None,
            },
            provider@,
            alike,
            left,
            now,
        ),
{
    match record {
        None => Previous::Absent,
        Some(r) => match r.drain_started {
            None => if r.provider == *provider && alike {
                Previous::Same
            } else {
                Previous::Other
            },
            Some(t) => if left.pending == 0 && left.native_pending == 0 {
                Previous::Drained
            } else if now >= t && now - t >= DRAIN_DEADLINE_MS {
                Previous::Overdue
            } else {
                Previous::Draining
            },
        },
    }
}

/// An activation that was prepared: what its provider is asked to make, the settings as they were
/// asked for, its scopes, and the rights it has.
pub struct Activation {
    pub provider: String,
    pub create: CreatePanel,
    pub settings: String,
    pub mount: MountKey,
    pub provider_scope: u64,
    pub instance_scope: u64,
    pub mount_scope: u64,
    pub rights: Vec<Capability>,
}

/// What asking for a panel comes to.
pub enum ResolveStep<U> {
    /// The panel is there.
    Reuse(InstanceKey),
    /// It cannot be had now. This is to be destroyed of the last activation.
    Refused { ended: Option<StopPlan<U>>, error: Error },
    /// The panel that is there has to stop first: this is to be undone, the tasks of the scope are
    /// to be cancelled, and the request is refused.
    Stop { reason: StopReason, scope: u64, plan: StopPlan<U>, error: Error },
    /// The panel is to be made. This is to be destroyed of the last activation.
    Activate { ended: Option<StopPlan<U>>, activation: Activation },
}

/// The host of panels. `U` is what scopes undo, `S` what a service is held as.
pub struct PanelHost<U, S> {
    pub records: HashMap<u128, HostRecord>,
    pub scopes: ScopeTree<U>,
    pub services: ServiceRegistry<S>,
    pub next_activation: u64,
    pub next_mount: u64,
}

pub open spec fn record_of<U, S>(h: PanelHost<U, S>, id: u128) -> Option<HostRecord> {
    if h.records@.contains_key(id) {
        Some(h.records@[id])
    } else {
        None
    }
}

/// A panel has its scope, below a scope that no other panel lies below.
pub open spec fn has_own_scope<U, S>(h: PanelHost<U, S>, id: u128) -> bool {
    let nodes = h.scopes.nodes();
    let scope = h.records@[id].scope;
    &&& nodes.contains_key(scope)
    &&& nodes[scope].parent matches Some(p) && p != ROOT && forall|other: u128| #[trigger]
        h.records@.contains_key(other) && other != id ==> !lies_below(
            nodes,
            h.records@[other].scope,
            p,
        )
}

/// The tree and the registry are in order, and every panel has its own scope.
pub open spec fn host_ok<U, S>(h: PanelHost<U, S>) -> bool {
    &&& h.scopes.wf()
    &&& h.services.wf()
    &&& forall|id: u128| #[trigger] h.records@.contains_key(id) ==> has_own_scope(h, id)
}

/// Scopes that stay keep their parents.
pub open spec fn parents_kept<U>(a: Map<u64, Node<U>>, b: Map<u64, Node<U>>) -> bool {
    forall|k: u64| #[trigger] a.contains_key(k) && b.contains_key(k) ==> b[k].parent == a[k].parent
}

pub(crate) proof fn lemma_below_kept<U>(a: Map<u64, Node<U>>, b: Map<u64, Node<U>>, next: u64, x: u64, top: u64)
    requires
        tree_ok(a, next),
        a.contains_key(x),
        parents_kept(a, b),
        lies_below(b, x, top),
    ensures
        lies_below(a, x, top),
    decreases x,
{
    assert(node_ok(a, x));
    if x != top {
        let p = b[x].parent->0;
        lemma_below_kept(a, b, next, p, top);
    }
}

/// Panels keep their own scopes when the tree changes around them.
pub(crate) proof fn lemma_host_kept<U, S>(a: PanelHost<U, S>, b: PanelHost<U, S>)
    requires
        host_ok(a),
        b.scopes.wf(),
        b.services.wf(),
        parents_kept(a.scopes.nodes(), b.scopes.nodes()),
        forall|id: u128| #[trigger]
            b.records@.contains_key(id) ==> a.records@.contains_key(id) && b.records@[id].scope
                == a.records@[id].scope && b.scopes.nodes().contains_key(b.records@[id].scope),
    ensures
        host_ok(b),
{
    let x = a.scopes.nodes();
    let y = b.scopes.nodes();
    assert forall|id: u128| #[trigger] b.records@.contains_key(id) implies has_own_scope(b, id) by {
        assert(has_own_scope(a, id));
        let scope = b.records@[id].scope;
        let p = x[scope].parent->0;
        assert forall|other: u128| #[trigger] b.records@.contains_key(other) && other
            != id implies !lies_below(y, b.records@[other].scope, p) by {
            assert(a.records@.contains_key(other));
            assert(has_own_scope(a, other));
            if lies_below(y, b.records@[other].scope, p) {
                lemma_below_kept(x, y, a.scopes.next(), b.records@[other].scope, p);
            }
        }
    }
}

/// What was prepared for an activation is there, and no other panel lies in it.
pub open spec fn is_ready<U, S>(h: PanelHost<U, S>, act: Activation) -> bool {
    let nodes = h.scopes.nodes();
    &&& nodes.contains_key(act.instance_scope)
    &&& nodes[act.instance_scope].parent == Some(act.provider_scope)
    &&& act.provider_scope != ROOT
    &&& forall|other: u128| #[trigger]
        h.records@.contains_key(other) && other != act.create.key.id ==> !lies_below(
            nodes,
            h.records@[other].scope,
            act.provider_scope,
        ) && !lies_below(
            nodes,
            act.instance_scope,
            nodes[h.records@[other].scope].parent->0,
        )
}

/// The services once a scope was noted among the users of each of the keys.
pub open spec fn all_used<S>(es: Seq<Service<S>>, keys: Seq<ServiceKey>, scope: ScopeId) -> Seq<
    Service<S>,
>
    decreases keys.len(),
{
    if keys.len() == 0 {
        es
    } else {
        used_by(all_used(es, keys.drop_last(), scope), keys.last()@, scope)
    }
}

pub open spec fn all_published<S>(es: Seq<Service<S>>, keys: Seq<ServiceKey>) -> bool {
    forall|i: int| 0 <= i < keys.len() ==> has_service(es, (#[trigger] keys[i])@)
}

proof fn lemma_used_keeps<S>(es: Seq<Service<S>>, id: crate::services::Identity, scope: ScopeId)
    ensures
        used_by(es, id, scope).len() == es.len(),
        forall|x: crate::services::Identity| #[trigger]
            has_service(used_by(es, id, scope), x) == has_service(es, x),
{
    let us = used_by(es, id, scope);
    assert forall|x: crate::services::Identity| #[trigger] has_service(us, x) == has_service(es, x) by {
        if has_service(es, x) {
            let i = choose|i: int| crate::services::service_at(es, x, i);
            assert(crate::services::service_at(us, x, i));
        }
        if has_service(us, x) {
            let i = choose|i: int| crate::services::service_at(us, x, i);
            assert(crate::services::service_at(es, x, i));
        }
    }
}

proof fn lemma_all_used_keeps<S>(es: Seq<Service<S>>, keys: Seq<ServiceKey>, scope: ScopeId)
    ensures
        forall|x: crate::services::Identity| #[trigger]
            has_service(all_used(es, keys, scope), x) == has_service(es, x),
    decreases keys.len(),
{
    if keys.len() > 0 {
        lemma_all_used_keeps(es, keys.drop_last(), scope);
        lemma_used_keeps(all_used(es, keys.drop_last(), scope), keys.last()@, scope);
    }
}

proof fn lemma_used_cell<S>(
    es: Seq<Service<S>>,
    next: u64,
    id: crate::services::Identity,
    scope: ScopeId,
    x: crate::services::Identity,
)
    requires
        crate::services::services_ok(es, next),
        has_service(es, x),
    ensures
        service_of(used_by(es, id, scope), x).cell == service_of(es, x).cell,
{
    let us = used_by(es, id, scope);
    let i = choose|i: int| crate::services::service_at(es, x, i);
    assert(crate::services::service_at(us, x, i));
    let k = choose|k: int| crate::services::service_at(us, x, k);
    assert(crate::services::service_at(us, x, k));
    assert(es[k].id == us[k].id);
    assert(es[k].id == es[i].id);
}

/// Where service `i` is the first one that is not there, those before it are counted.
proof fn lemma_published_first<S>(es: Seq<Service<S>>, keys: Seq<ServiceKey>, i: int)
    requires
        0 <= i < keys.len(),
        forall|j: int| 0 <= j < i ==> has_service(es, (#[trigger] keys[j])@),
        !has_service(es, keys[i]@),
    ensures
        published_first(es, keys) == i,
    decreases keys.len(),
{
    let rest = keys.drop_last();
    if i < rest.len() {
        assert(rest[i] == keys[i]);
        assert forall|j: int| 0 <= j < i implies has_service(es, (#[trigger] rest[j])@) by {
            assert(rest[j] == keys[j]);
        }
        lemma_published_first(es, rest, i);
    } else {
        lemma_all_first(es, rest);
    }
}

proof fn lemma_all_first<S>(es: Seq<Service<S>>, keys: Seq<ServiceKey>)
    requires
        all_published(es, keys),
    ensures
        published_first(es, keys) == keys.len(),
    decreases keys.len(),
{
    if keys.len() > 0 {
        let rest = keys.drop_last();
        assert forall|j: int| 0 <= j < rest.len() implies has_service(es, (#[trigger] rest[j])@) by {
            assert(rest[j] == keys[j]);
        }
        lemma_all_first(es, rest);
        assert(has_service(es, keys[keys.len() - 1]@));
    }
}

/// The rights fit the services that were asked for, and belong to the scope.
pub open spec fn rights_ok<S>(
    rights: Seq<Capability>,
    es: Seq<Service<S>>,
    keys: Seq<ServiceKey>,
    holder: ScopeHandle,
) -> bool {
    &&& rights.len() == keys.len()
    &&& forall|i: int|
        0 <= i < rights.len() ==> (#[trigger] rights[i]).number() == service_of(
            es,
            keys[i]@,
        ).cell.number() && rights[i].holder() == holder
}

// ---- activating ---------------------------------------------------------------------------

/// The tree with the three scopes of a new activation below the root.
pub open spec fn with_scopes<U>(nodes: Map<u64, Node<U>>, next: u64, generation: u64) -> Map<u64, Node<U>> {
    with_child(
        with_child(
            with_child(nodes, ROOT, ScopeKind::Provider, next, generation),
            next,
            ScopeKind::Instance,
            (next + 1) as u64,
            (generation + 1) as u64,
        ),
        (next + 1) as u64,
        ScopeKind::Mount,
        (next + 2) as u64,
        (generation + 2) as u64,
    )
}

/// An activation can be prepared.
pub open spec fn can_prepare<U, S>(h: PanelHost<U, S>, keys: Seq<ServiceKey>) -> bool {
    &&& takes_children(h.scopes.nodes(), ROOT)
    &&& h.scopes.next() + 3 <= u64::MAX
    &&& h.scopes.next_gen() + 3 <= u64::MAX
    &&& h.next_activation < u64::MAX
    &&& h.next_mount < u64::MAX
    &&& all_published(h.services.services(), keys)
}

/// The tree with the first `k` of the three scopes of a new activation.
pub open spec fn with_some_scopes<U>(
    nodes: Map<u64, Node<U>>,
    next: u64,
    generation: u64,
    k: int,
) -> Map<u64, Node<U>> {
    if k <= 0 {
        nodes
    } else if k == 1 {
        with_child(nodes, ROOT, ScopeKind::Provider, next, generation)
    } else if k == 2 {
        with_child(
            with_child(nodes, ROOT, ScopeKind::Provider, next, generation),
            next,
            ScopeKind::Instance,
            (next + 1) as u64,
            (generation + 1) as u64,
        )
    } else {
        with_scopes(nodes, next, generation)
    }
}

/// How many of the three scopes of a new activation can be made.
pub open spec fn scopes_made<U, S>(h: PanelHost<U, S>) -> int {
    let ids = u64::MAX - h.scopes.next();
    let generations = u64::MAX - h.scopes.next_gen();
    if !takes_children(h.scopes.nodes(), ROOT) {
        0
    } else if ids >= 3 && generations >= 3 {
        3
    } else if ids < generations {
        ids
    } else {
        generations
    }
}

/// How many of the first services are there.
pub open spec fn published_first<S>(es: Seq<Service<S>>, keys: Seq<ServiceKey>) -> int
    decreases keys.len(),
{
    if keys.len() == 0 {
        0
    } else {
        let before = published_first(es, keys.drop_last());
        if before == keys.len() - 1 && has_service(es, keys.last()@) {
            before + 1
        } else {
            before
        }
    }
}

/// Why an activation cannot be prepared: the root takes no scopes, a service is not there, or
/// there are no numbers left.
pub open spec fn refusal_of<U, S>(h: PanelHost<U, S>, keys: Seq<ServiceKey>) -> Error {
    if !takes_children(h.scopes.nodes(), ROOT) {
        Error::Closed
    } else if scopes_made(h) == 3 && h.next_activation < u64::MAX && !all_published(
        h.services.services(),
        keys,
    ) {
        Error::Revoked
    } else {
        Error::Exhausted
    }
}

/// An activation could not be prepared. What was made of it until then stays.
pub open spec fn not_prepared<U, S>(
    a: PanelHost<U, S>,
    b: PanelHost<U, S>,
    keys: Seq<ServiceKey>,
    error: Error,
) -> bool {
    let n = a.scopes.next();
    let g = a.scopes.next_gen();
    let k = scopes_made(a);
    let es = a.services.services();
    let counted = k == 3 && a.next_activation < u64::MAX;
    &&& !can_prepare(a, keys)
    &&& error == refusal_of(a, keys)
    &&& b.records@ == a.records@
    &&& b.scopes.nodes() == with_some_scopes(a.scopes.nodes(), n, g, k)
    &&& b.scopes.next_gen() == g + k
    &&& b.scopes.next() == if !takes_children(a.scopes.nodes(), ROOT) || k == 3 || n + k == u64::MAX {
        n + k
    } else {
        n + k + 1
    }
    &&& b.next_activation == if counted {
        a.next_activation + 1
    } else {
        a.next_activation as int
    }
    &&& b.services.services() == if counted {
        all_used(es, keys.take(published_first(es, keys)), ScopeId((n + 1) as u64))
    } else {
        es
    }
    &&& b.services.next() == a.services.next()
    &&& b.next_mount == a.next_mount
}

/// An activation was prepared: its provider is asked to make a panel with these settings.
pub open spec fn prepared<U, S>(
    a: PanelHost<U, S>,
    b: PanelHost<U, S>,
    spec: PanelSpec,
    bytes: Seq<u8>,
    keys: Seq<ServiceKey>,
    act: Activation,
) -> bool {
    let n = a.scopes.next();
    let g = a.scopes.next_gen();
    let key = InstanceKey { id: spec.instance_id, activation: a.next_activation };
    &&& act.provider@ == spec.provider@
    &&& act.settings@ == spec.config@
    &&& act.create.key == key
    &&& act.create.config.version == spec.config_version
    &&& act.create.config.bytes@ == bytes
    &&& act.mount == (MountKey { instance: key, generation: a.next_mount })
    &&& act.provider_scope == n
    &&& act.instance_scope == n + 1
    &&& act.mount_scope == n + 2
    &&& rights_ok(
        act.rights@,
        a.services.services(),
        keys,
        ScopeHandle { id: ScopeId((n + 1) as u64), generation: (g + 1) as u64 },
    )
    &&& b.records@ == a.records@
    &&& b.scopes.nodes() == with_scopes(a.scopes.nodes(), n, g)
    &&& b.scopes.next() == n + 3
    &&& b.services.services() == all_used(
        a.services.services(),
        keys,
        ScopeId((n + 1) as u64),
    )
    &&& b.services.next() == a.services.next()
    &&& b.next_activation == a.next_activation + 1
    &&& b.next_mount == a.next_mount + 1
}

impl<U, S> PanelHost<U, S> {
    /// A host with these services and no panels.
    pub fn new(services: ServiceRegistry<S>) -> (r: Self)
        requires
            services.wf(),
        ensures
            host_ok(r),
            r.records@ == Map::<u128, HostRecord>::empty(),
            r.services == services,
            r.next_activation == 1,
            r.next_mount == 1,
            takes_children(r.scopes.nodes(), ROOT),
            r.scopes.next() == 2,
    {
        PanelHost {
            records: HashMap::new(),
            scopes: ScopeTree::new(),
            services,
            next_activation: 1,
            next_mount: 1,
        }
    }

    fn rights_for(
        &mut self,
        keys: &Vec<ServiceKey>,
        scope: ScopeId,
        handle: ScopeHandle,
        now: Option<LeaseState>,
    ) -> (r: Result<Vec<Capability>, Error>)
        requires
            host_ok(*old(self)),
            is_live(handle, now),
        ensures
            host_ok(*final(self)),
            final(self).records@ == old(self).records@,
            final(self).scopes == old(self).scopes,
            final(self).next_activation == old(self).next_activation,
            final(self).next_mount == old(self).next_mount,
            final(self).services.next() == old(self).services.next(),
            r is Ok <==> all_published(old(self).services.services(), keys@),
            match r {
                Ok(rights) => {
                    &&& rights_ok(rights@, old(self).services.services(), keys@, handle)
                    &&& final(self).services.services() == all_used(
                        old(self).services.services(),
                        keys@,
                        scope,
                    )
                },
                Err(e) => {
                    let es = old(self).services.services();
                    &&& e == Error::Revoked
                    &&& final(self).services.services() == all_used(
                        es,
                        keys@.take(published_first(es, keys@)),
                        scope,
                    )
                },
            },
    {
        let ghost es = self.services.services();
        let ghost next = self.services.next();
        let mut rights: Vec<Capability> = Vec::new();
        let n: usize = keys.len();
        assert(keys@.take(0) =~= Seq::<ServiceKey>::empty());
        for i in 0..n
            invariant
                n == keys.len(),
                is_live(handle, now),
                host_ok(*self),
                es == old(self).services.services(),
                crate::services::services_ok(es, next),
                self.records@ == old(self).records@,
                self.scopes == old(self).scopes,
                self.next_activation == old(self).next_activation,
                self.next_mount == old(self).next_mount,
                self.services.next() == next,
                next == old(self).services.next(),
                self.services.services() == all_used(es, keys@.take(i as int), scope),
                forall|j: int| 0 <= j < i ==> has_service(es, (#[trigger] keys@[j])@),
                forall|x: crate::services::Identity|
                    has_service(es, x) ==> (#[trigger] service_of(
                        self.services.services(),
                        x,
                    )).cell == service_of(es, x).cell,
                rights_ok(rights@, es, keys@.take(i as int), handle),
        {
            let ghost mid = self.services.services();
            proof {
                lemma_all_used_keeps(es, keys@.take(i as int), scope);
                assert(keys@.take(i + 1).drop_last() =~= keys@.take(i as int));
                assert(keys@.take(i + 1).last() == keys@[i as int]);
            }
            match self.services.resolve(keys[i], scope, handle, now) {
                Ok(c) => {
                    let ghost before = rights@;
                    rights.push(c);
                    proof {
                        assert forall|x: crate::services::Identity| has_service(es, x) implies (
                        #[trigger] service_of(self.services.services(), x)).cell == service_of(
                            es,
                            x,
                        ).cell by {
                            assert(has_service(mid, x));
                            lemma_used_cell(mid, next, keys@[i as int]@, scope, x);
                        }
                        assert(has_service(es, keys@[i as int]@));
                        let ks = keys@.take(i + 1);
                        assert forall|j: int| 0 <= j < rights.len() implies (
                        #[trigger] rights@[j]).number() == service_of(es, ks[j]@).cell.number()
                            && rights@[j].holder() == handle by {
                            if j < before.len() {
                                assert(rights@[j] == before[j]);
                                assert(ks[j] == keys@.take(i as int)[j]);
                            }
                        }
                    }
                },
                Err(e) => {
                    assert(!has_service(es, keys@[i as int]@));
                    proof {
                        lemma_published_first(es, keys@, i as int);
                    }
                    return Err(e);
                },
            }
        }
        assert(keys@.take(n as int) =~= keys@);
        Ok(rights)
    }

    /// Prepares an activation of a panel: three scopes, one in the other, and the rights to use
    /// the services.
    fn prepare(&mut self, spec: &PanelSpec, bytes: Vec<u8>, keys: &Vec<ServiceKey>) -> (r: Result<
        Activation,
        Error,
    >)
        requires
            host_ok(*old(self)),
        ensures
            host_ok(*final(self)),
            final(self).records@ == old(self).records@,
            r is Ok <==> can_prepare(*old(self), keys@),
            match r {
                Ok(act) => prepared(*old(self), *final(self), *spec, bytes@, keys@, act) && is_ready(
                    *final(self),
                    act,
                ),
                Err(e) => not_prepared(*old(self), *final(self), keys@, e),
            },
    {
        let ghost start = *self;
        let ghost a = self.scopes.nodes();
        let ghost n = self.scopes.next();
        let provider: ScopeId = match self.scopes.create(ScopeId(ROOT), ScopeKind::Provider) {
            Ok(s) => s,
            Err(e) => {
                proof {
                    lemma_host_kept(start, *self);
                }
                return Err(e);
            },
        };
        proof {
            lemma_host_kept(start, *self);
        }
        let ghost b = self.scopes.nodes();
        assert(takes_children(b, provider.0));
        let instance: ScopeId = match self.scopes.create(provider, ScopeKind::Instance) {
            Ok(s) => s,
            Err(e) => {
                proof {
                    lemma_host_kept(start, *self);
                }
                return Err(e);
            },
        };
        proof {
            lemma_host_kept(start, *self);
        }
        let ghost c = self.scopes.nodes();
        assert(takes_children(c, instance.0));
        let mount: ScopeId = match self.scopes.create(instance, ScopeKind::Mount) {
            Ok(s) => s,
            Err(e) => {
                proof {
                    lemma_host_kept(start, *self);
                }
                return Err(e);
            },
        };
        proof {
            lemma_host_kept(start, *self);
        }
        let activation: u64 = self.next_activation;
        if activation == u64::MAX {
            return Err(Error::Exhausted);
        }
        self.next_activation = activation + 1;
        let now = self.scopes.lease(instance);
        let handle: ScopeHandle = match self.scopes.handle(instance) {
            Ok(h) => h,
            Err(e) => {
                return Err(e);
            },
        };
        let rights = match self.rights_for(keys, instance, handle, now) {
            Ok(rights) => rights,
            Err(e) => {
                return Err(e);
            },
        };
        let generation: u64 = self.next_mount;
        if generation == u64::MAX {
            proof {
                lemma_all_first(start.services.services(), keys@);
                assert(keys@.take(keys.len() as int) =~= keys@);
            }
            return Err(Error::Exhausted);
        }
        self.next_mount = generation + 1;
        let key = InstanceKey { id: spec.instance_id, activation };
        let act = Activation {
            provider: spec.provider.clone(),
            create: CreatePanel {
                key,
                config: PanelConfig { version: spec.config_version, bytes },
            },
            settings: spec.config.clone(),
            mount: MountKey { instance: key, generation },
            provider_scope: provider.0,
            instance_scope: instance.0,
            mount_scope: mount.0,
            rights,
        };
        proof {
            lemma_ready(start, *self, act);
        }
        Ok(act)
    }
}

/// Scopes that were just made lie below nothing but the root and themselves.
proof fn lemma_ready<U, S>(a: PanelHost<U, S>, b: PanelHost<U, S>, act: Activation)
    requires
        host_ok(a),
        host_ok(b),
        b.records@ == a.records@,
        act.provider_scope == a.scopes.next(),
        act.instance_scope == a.scopes.next() + 1,
        a.scopes.next() + 3 <= u64::MAX,
        b.scopes.nodes() == with_scopes(a.scopes.nodes(), a.scopes.next(), a.scopes.next_gen()),
    ensures
        is_ready(b, act),
{
    let x = a.scopes.nodes();
    let y = b.scopes.nodes();
    let n = a.scopes.next();
    assert forall|other: u128| #[trigger] b.records@.contains_key(other) && other
        != act.create.key.id implies !lies_below(y, b.records@[other].scope, act.provider_scope)
        && !lies_below(y, act.instance_scope, y[b.records@[other].scope].parent->0) by {
        assert(has_own_scope(a, other));
        let s = a.records@[other].scope;
        assert(node_ok(x, s));
        assert(s < n);
        if lies_below(y, s, act.provider_scope) {
            lemma_not_above(y, s, act.provider_scope);
        }
        let p = y[s].parent->0;
        assert(p == x[s].parent->0);
        assert(p < n && p != ROOT);
        if lies_below(y, act.instance_scope, p) {
            assert(lies_below(y, act.provider_scope, p));
            assert(lies_below(y, ROOT, p));
        }
    }
}

// ---- asking for a panel -------------------------------------------------------------------

/// Everything at and below a scope began to stop.
pub open spec fn scope_stopped<U>(
    a: ScopeTree<U>,
    b: ScopeTree<U>,
    scope: u64,
    plan: StopPlan<U>,
) -> bool {
    let order = stop_order(a.nodes(), scope, a.next());
    &&& plan.order@ == order
    &&& plan.undos@ == undos_of(a.nodes(), order)
    &&& same_shape(b.nodes(), a.nodes())
    &&& b.next() == a.next()
    &&& b.next_gen() == a.next_gen()
    &&& forall|k: u64| #[trigger]
        a.nodes().contains_key(k) ==> b.nodes()[k].local == if order.contains(k) {
            stop_begun(a.nodes()[k].local)
        } else {
            a.nodes()[k].local
        }
}

/// Everything at and below a scope was disposed of.
pub open spec fn scope_ended<U>(
    a: ScopeTree<U>,
    b: ScopeTree<U>,
    scope: u64,
    plan: StopPlan<U>,
) -> bool {
    let order = stop_order(a.nodes(), scope, a.next());
    &&& plan.order@ == order
    &&& plan.undos@ == destroys_of(a.nodes(), order)
    &&& same_shape(b.nodes(), a.nodes())
    &&& b.next() == a.next()
    &&& b.next_gen() == a.next_gen()
    &&& forall|k: u64| #[trigger]
        a.nodes().contains_key(k) ==> b.nodes()[k].local == if order.contains(k) {
            disposed_now(destroy_begun(a.nodes()[k].local))
        } else {
            a.nodes()[k].local
        }
}

/// The two hosts differ at most in the panels and the scopes.
pub open spec fn same_but_panels<U, S>(a: PanelHost<U, S>, b: PanelHost<U, S>) -> bool {
    &&& a.services == b.services
    &&& a.next_activation == b.next_activation
    &&& a.next_mount == b.next_mount
}

/// An error of the backend with this message.
pub open spec fn is_backend(e: Error, message: Seq<char>) -> bool {
    e matches Error::Backend(m) && m@ == message
}

/// What making a panel comes to, once nothing is in its way.
pub open spec fn making<U, S>(
    a: PanelHost<U, S>,
    b: PanelHost<U, S>,
    spec: PanelSpec,
    bytes: Seq<u8>,
    known: bool,
    keys: Seq<ServiceKey>,
    step: ResolveStep<U>,
    ended: Option<StopPlan<U>>,
) -> bool {
    &&& b.records@ == a.records@
    &&& !known ==> b == a && (step matches ResolveStep::Refused { ended: e, error } && e == ended
        && is_invalid(error, "unknown panel provider "@ + spec.provider@))
    &&& known ==> match step {
        ResolveStep::Activate { ended: e, activation } => e == ended && can_prepare(a, keys)
            && prepared(a, b, spec, bytes, keys, activation) && is_ready(b, activation),
        ResolveStep::Refused { ended: e, error } => e == ended && not_prepared(a, b, keys, error),
        _ => false,
    }
}

/// The record of a panel that ended was dropped, and its scope disposed of.
pub open spec fn ended_here<U, S>(
    a: PanelHost<U, S>,
    b: PanelHost<U, S>,
    id: u128,
    plan: StopPlan<U>,
) -> bool {
    &&& b.records@ == a.records@.remove(id)
    &&& scope_ended(a.scopes, b.scopes, a.records@[id].scope, plan)
    &&& same_but_panels(b, a)
}

/// The panel that is there has the settings that are asked for.
pub open spec fn alike<U, S>(h: PanelHost<U, S>, spec: PanelSpec) -> bool {
    match record_of(h, spec.instance_id) {
        Some(r) => same_settings(r.config@, spec.config@),
        None => false,
    }
}

/// What asking for a panel comes to, given the bytes of its settings and whether they are those of
/// the panel that is there.
pub open spec fn resolved<U, S>(
    a: PanelHost<U, S>,
    b: PanelHost<U, S>,
    spec: PanelSpec,
    bytes: Seq<u8>,
    alike: bool,
    known: bool,
    keys: Seq<ServiceKey>,
    left: DrainReport,
    now: u64,
    step: ResolveStep<U>,
) -> bool {
    let id = spec.instance_id;
    let r = a.records@[id];
    match previous_of(record_of(a, id), spec.provider@, alike, left, now) {
        Previous::Same => b == a && step == ResolveStep::<U>::Reuse(
            InstanceKey { id, activation: r.activation },
        ),
        Previous::Draining => b == a && (step matches ResolveStep::Refused { ended, error } && ended
            is None && is_backend(error, "previous panel activation is draining"@)),
        Previous::Overdue => {
            &&& b.records@ == a.records@
            &&& b.scopes.nodes() == a.scopes.nodes().insert(
                r.scope,
                Node {
                    local: quarantined(a.scopes.nodes()[r.scope].local),
                    ..a.scopes.nodes()[r.scope]
                },
            )
            &&& same_but_panels(b, a)
            &&& step matches ResolveStep::Refused { ended, error } && ended is None && is_backend(
                error,
                "previous panel activation exceeded the 5 second drain deadline"@,
            )
        },
        Previous::Other => {
            &&& b.records@ == a.records@.insert(id, HostRecord { drain_started: Some(now), ..r })
            &&& same_but_panels(b, a)
            &&& step matches ResolveStep::Stop { reason, scope, plan, error } && reason
                == StopReason::Reconfigured && scope == r.scope && scope_stopped(
                a.scopes,
                b.scopes,
                r.scope,
                plan,
            ) && is_backend(error, "previous panel activation entered drain"@)
        },
        Previous::Drained => exists|mid: PanelHost<U, S>, plan: StopPlan<U>| #[trigger]
            ended_here(a, mid, id, plan) && making(
                mid,
                b,
                spec,
                bytes,
                known,
                keys,
                step,
                Some(plan),
            ),
        Previous::Absent => making(a, b, spec, bytes, known, keys, step, None),
    }
}

/// A request for a panel, and what is known when it is made.
pub struct Request {
    pub spec: PanelSpec,
    pub known: bool,
    pub keys: Seq<ServiceKey>,
    pub left: DrainReport,
    pub now: u64,
}

/// What [`PanelHost::resolve`] comes to.
pub open spec fn asked<U, S>(
    a: PanelHost<U, S>,
    b: PanelHost<U, S>,
    q: Request,
    step: ResolveStep<U>,
) -> bool {
    match compact_json(q.spec.config@) {
        Some(bytes) => {
            &&& resolved(
                a,
                b,
                q.spec,
                bytes,
                alike(a, q.spec),
                q.known,
                q.keys,
                q.left,
                q.now,
                step,
            )
            &&& alike(a, q.spec) ==> interchangeable(
                a.records@[q.spec.instance_id].config@,
                q.spec.config@,
            )
        },
        None => b == a && (step matches ResolveStep::Refused { ended, error } && ended is None
            && is_invalid(error, "panel settings are not JSON"@)),
    }
}

/// The record of an activation that was made and mounted.
pub open spec fn kept(act: Activation) -> HostRecord {
    HostRecord {
        provider: act.provider,
        config: act.settings,
        activation: act.create.key.activation,
        scope: act.instance_scope,
        mount_scope: Some(act.mount_scope),
        mount_key: Some(act.mount),
        drain_started: None,
    }
}

/// The panel of an activation is kept.
pub open spec fn committed<U, S>(a: PanelHost<U, S>, b: PanelHost<U, S>, act: Activation) -> bool {
    &&& b.records@ == a.records@.insert(act.create.key.id, kept(act))
    &&& b.scopes == a.scopes
    &&& same_but_panels(b, a)
}

fn unknown_provider(provider: &String) -> (r: Error)
    ensures
        is_invalid(r, "unknown panel provider "@ + provider@),
{
    let mut chars = chars_of("unknown panel provider ");
    let name = chars_of(provider.as_str());
    let n: usize = name.len();
    for i in 0..n
        invariant
            n == name.len(),
            name@ == provider@,
            chars@ == "unknown panel provider "@ + provider@.take(i as int),
    {
        chars.push(name[i]);
        assert(chars@ =~= "unknown panel provider "@ + provider@.take(i + 1));
    }
    assert(provider@.take(n as int) =~= provider@);
    Error::Invalid(string_of(&chars))
}

impl<U, S> PanelHost<U, S> {
    fn make(
        &mut self,
        spec: &PanelSpec,
        bytes: Vec<u8>,
        known: bool,
        keys: &Vec<ServiceKey>,
        ended: Option<StopPlan<U>>,
    ) -> (r: ResolveStep<U>)
        requires
            host_ok(*old(self)),
        ensures
            host_ok(*final(self)),
            making(*old(self), *final(self), *spec, bytes@, known, keys@, r, ended),
    {
        if !known {
            return ResolveStep::Refused { ended, error: unknown_provider(&spec.provider) };
        }
        match self.prepare(spec, bytes, keys) {
            Ok(activation) => ResolveStep::Activate { ended, activation },
            Err(error) => ResolveStep::Refused { ended, error },
        }
    }

    /// Disposes of an activation that ended.
    fn end(&mut self, id: u128) -> (r: StopPlan<U>)
        requires
            host_ok(*old(self)),
            old(self).records@.contains_key(id),
        ensures
            host_ok(*final(self)),
            ended_here(*old(self), *final(self), id, r),
    {
        let mut scope: u64 = 0;
        if let Some(record) = self.records.remove(&id) {
            scope = record.scope;
        }
        assert(self.records@ =~= old(self).records@.remove(id));
        let plan = match self.scopes.dispose_now(ScopeId(scope)) {
            Ok(plan) => plan,
            Err(_) => StopPlan { order: Vec::new(), undos: Vec::new() },
        };
        proof {
            lemma_host_kept(*old(self), *self);
        }
        plan
    }

    /// Begins to end an activation.
    fn stop(&mut self, id: u128, now: u64) -> (r: StopPlan<U>)
        requires
            host_ok(*old(self)),
            old(self).records@.contains_key(id),
        ensures
            host_ok(*final(self)),
            final(self).records@ == old(self).records@.insert(
                id,
                HostRecord { drain_started: Some(now), ..old(self).records@[id] },
            ),
            scope_stopped(old(self).scopes, final(self).scopes, old(self).records@[id].scope, r),
            same_but_panels(*final(self), *old(self)),
    {
        let mut scope: u64 = 0;
        if let Some(record) = self.records.remove(&id) {
            let mut record = record;
            scope = record.scope;
            record.drain_started = Some(now);
            self.records.insert(id, record);
        }
        assert(self.records@ =~= old(self).records@.insert(
            id,
            HostRecord { drain_started: Some(now), ..old(self).records@[id] },
        ));
        let plan = match self.scopes.begin_stop(ScopeId(scope)) {
            Ok(plan) => plan,
            Err(_) => StopPlan { order: Vec::new(), undos: Vec::new() },
        };
        proof {
            lemma_host_kept(*old(self), *self);
        }
        plan
    }

    /// Asks for a panel. `bytes` are its settings in compact form, `alike` says whether they are
    /// those of the panel that is there, `left` is what is left of the tasks of that one, and
    /// `keys` are the services it uses.
    pub fn resolve_with(
        &mut self,
        spec: &PanelSpec,
        bytes: Vec<u8>,
        alike: bool,
        known: bool,
        keys: &Vec<ServiceKey>,
        left: DrainReport,
        now: u64,
    ) -> (r: ResolveStep<U>)
        requires
            host_ok(*old(self)),
        ensures
            host_ok(*final(self)),
            resolved(
                *old(self),
                *final(self),
                *spec,
                bytes@,
                alike,
                known,
                keys@,
                left,
                now,
                r,
            ),
    {
        let ghost a = *self;
        let id: u128 = spec.instance_id;
        let (was, activation, scope) = match self.records.get(&id) {
            Some(record) => (
                previous(Some(record), &spec.provider, alike, left, now),
                record.activation,
                record.scope,
            ),
            None => (Previous::Absent, 0, 0),
        };
        match was {
            Previous::Same => ResolveStep::Reuse(InstanceKey { id, activation }),
            Previous::Draining => ResolveStep::Refused {
                ended: None,
                error: Error::Backend("previous panel activation is draining".to_owned()),
            },
            Previous::Overdue => {
                self.scopes.quarantine(ScopeId(scope));
                proof {
                    lemma_host_kept(a, *self);
                }
                ResolveStep::Refused {
                    ended: None,
                    error: Error::Backend(
                        "previous panel activation exceeded the 5 second drain deadline".to_owned(),
                    ),
                }
            },
            Previous::Other => {
                let plan = self.stop(id, now);
                ResolveStep::Stop {
                    reason: StopReason::Reconfigured,
                    scope,
                    plan,
                    error: Error::Backend("previous panel activation entered drain".to_owned()),
                }
            },
            Previous::Drained => {
                let plan = self.end(id);
                assert(ended_here(a, *self, id, plan));
                self.make(spec, bytes, known, keys, Some(plan))
            },
            Previous::Absent => self.make(spec, bytes, known, keys, None),
        }
    }

    /// Asks for a panel as it is saved. Settings that are no JSON are refused.
    pub fn resolve(
        &mut self,
        spec: &PanelSpec,
        known: bool,
        keys: &Vec<ServiceKey>,
        left: DrainReport,
        now: u64,
    ) -> (r: ResolveStep<U>)
        requires
            host_ok(*old(self)),
        ensures
            host_ok(*final(self)),
            asked(
                *old(self),
                *final(self),
                Request { spec: *spec, known, keys: keys@, left, now },
                r,
            ),
    {
        match rewrite_json(spec.config.as_str()) {
            Some(bytes) => {
                let alike = match self.records.get(&spec.instance_id) {
                    Some(record) => compare_settings(&record.config, &spec.config),
                    None => false,
                };
                self.resolve_with(spec, bytes, alike, known, keys, left, now)
            },
            None => ResolveStep::Refused {
                ended: None,
                error: Error::Invalid("panel settings are not JSON".to_owned()),
            },
        }
    }

    /// The panel of an activation was made and mounted: it is kept.
    pub fn commit(&mut self, act: Activation)
        requires
            host_ok(*old(self)),
            is_ready(*old(self), act),
        ensures
            host_ok(*final(self)),
            committed(*old(self), *final(self), act),
    {
        let ghost given = act;
        self.records.insert(
            act.create.key.id,
            HostRecord {
                provider: act.provider,
                config: act.settings,
                activation: act.create.key.activation,
                scope: act.instance_scope,
                mount_scope: Some(act.mount_scope),
                mount_key: Some(act.mount),
                drain_started: None,
            },
        );
        assert(self.records@ =~= old(self).records@.insert(given.create.key.id, kept(given)));
        proof {
            let ghost before = *old(self);
            assert forall|id: u128| #[trigger] self.records@.contains_key(id) implies has_own_scope(
                *self,
                id,
            ) by {
                if id != act.create.key.id {
                    assert(before.records@.contains_key(id));
                    assert(has_own_scope(before, id));
                }
            }
        }
    }
}

/// A request was answered with the panel `key`: it was there, or it was made and kept.
pub open spec fn opened<U, S>(
    a: PanelHost<U, S>,
    b: PanelHost<U, S>,
    q: Request,
    key: InstanceKey,
) -> bool {
    ||| asked(a, b, q, ResolveStep::Reuse(key))
    ||| exists|mid: PanelHost<U, S>, ended: Option<StopPlan<U>>, act: Activation|
        #[trigger] made_and_kept(a, mid, b, q, ended, act) && act.create.key == key
}

/// A request was answered by an activation, which was kept.
pub open spec fn made_and_kept<U, S>(
    a: PanelHost<U, S>,
    mid: PanelHost<U, S>,
    b: PanelHost<U, S>,
    q: Request,
    ended: Option<StopPlan<U>>,
    act: Activation,
) -> bool {
    asked(a, mid, q, ResolveStep::Activate { ended, activation: act }) && committed(mid, b, act)
}

proof fn lemma_opened<U, S>(
    a: PanelHost<U, S>,
    b: PanelHost<U, S>,
    q: Request,
    key: InstanceKey,
)
    requires
        opened(a, b, q, key),
    ensures
        b.records@.contains_key(q.spec.instance_id),
        ({
            let r = b.records@[q.spec.instance_id];
            &&& key == (InstanceKey { id: q.spec.instance_id, activation: r.activation })
            &&& r.provider@ == q.spec.provider@
            &&& r.drain_started is None
            &&& interchangeable(r.config@, q.spec.config@)
        }),
{
    if asked(a, b, q, ResolveStep::Reuse(key)) {
        let was = previous_of(
            record_of(a, q.spec.instance_id),
            q.spec.provider@,
            alike(a, q.spec),
            q.left,
            q.now,
        );
        if was == Previous::Drained {
            let (mid, plan): (PanelHost<U, S>, StopPlan<U>) = choose|
                mid: PanelHost<U, S>,
                plan: StopPlan<U>,
            | #[trigger]
                ended_here(a, mid, q.spec.instance_id, plan) && making(
                    mid,
                    b,
                    q.spec,
                    compact_json(q.spec.config@)->0,
                    q.known,
                    q.keys,
                    ResolveStep::Reuse(key),
                    Some(plan),
                );
        }
        assert(was == Previous::Same);
    } else {
        let (mid, ended, act): (PanelHost<U, S>, Option<StopPlan<U>>, Activation) = choose|
            mid: PanelHost<U, S>,
            ended: Option<StopPlan<U>>,
            act: Activation,
        | #[trigger] made_and_kept(a, mid, b, q, ended, act) && act.create.key == key;
        lemma_activated(a, mid, q, ended, act);
        assert(b.records@[act.create.key.id] == kept(act));
    }
}

/// A panel that a request was answered with is the one that is there when it is asked for again
/// with the same provider and the same settings, as long as nothing was done to it: nothing is
/// made, stopped or counted.
pub proof fn a_panel_is_not_made_twice<U, S>(
    a: PanelHost<U, S>,
    b: PanelHost<U, S>,
    c: PanelHost<U, S>,
    d: PanelHost<U, S>,
    first: Request,
    second: Request,
    key: InstanceKey,
    step: ResolveStep<U>,
)
    requires
        opened(a, b, first, key),
        record_of(c, first.spec.instance_id) == record_of(b, first.spec.instance_id),
        asked(c, d, second, step),
        second.spec.instance_id == first.spec.instance_id,
        compact_json(second.spec.config@) is Some,
        second.spec.provider@ == first.spec.provider@,
        same_settings(first.spec.config@, second.spec.config@),
    ensures
        d == c,
        step == ResolveStep::<U>::Reuse(key),
{
    lemma_opened(a, b, first, key);
    assert(same_settings(b.records@[key.id].config@, second.spec.config@));
}

/// A panel that a request was answered with is stopped when it is asked for with another provider
/// or other settings, and nothing is made or counted: its tasks are to end first. It is stopped
/// once: what comes of the next request is no other stop.
pub proof fn another_panel_stops_the_one_before<U, S>(
    a: PanelHost<U, S>,
    b: PanelHost<U, S>,
    c: PanelHost<U, S>,
    d: PanelHost<U, S>,
    e: PanelHost<U, S>,
    first: Request,
    second: Request,
    third: Request,
    key: InstanceKey,
    step: ResolveStep<U>,
    next: ResolveStep<U>,
)
    requires
        opened(a, b, first, key),
        record_of(c, first.spec.instance_id) == record_of(b, first.spec.instance_id),
        asked(c, d, second, step),
        asked(d, e, third, next),
        second.spec.instance_id == first.spec.instance_id,
        compact_json(second.spec.config@) is Some,
        third.spec.instance_id == first.spec.instance_id,
        second.spec.provider@ != first.spec.provider@ || !same_settings(
            first.spec.config@,
            second.spec.config@,
        ),
    ensures
        step matches ResolveStep::Stop { reason, scope, error, .. } && reason
            == StopReason::Reconfigured && scope == c.records@[key.id].scope && is_backend(
            error,
            "previous panel activation entered drain"@,
        ),
        d.records@ == c.records@.insert(
            key.id,
            HostRecord { drain_started: Some(second.now), ..c.records@[key.id] },
        ),
        d.scopes.next() == c.scopes.next(),
        same_but_panels(d, c),
        !(next is Stop),
{
    lemma_opened(a, b, first, key);
    assert(c.records@[key.id] == b.records@[key.id]);
    assert(same_settings(b.records@[key.id].config@, second.spec.config@) == same_settings(
        first.spec.config@,
        second.spec.config@,
    ));
}

/// A panel is only made where nothing of it is left: no task, and no operation of the system.
pub proof fn a_panel_waits_for_the_one_before<U, S>(
    a: PanelHost<U, S>,
    b: PanelHost<U, S>,
    request: Request,
    step: ResolveStep<U>,
)
    requires
        asked(a, b, request, step),
        a.records@.contains_key(request.spec.instance_id),
        request.left.pending > 0 || request.left.native_pending > 0,
    ensures
        !(step is Activate),
        b.next_activation == a.next_activation,
{
}

proof fn lemma_activated<U, S>(
    a: PanelHost<U, S>,
    b: PanelHost<U, S>,
    request: Request,
    ended: Option<StopPlan<U>>,
    act: Activation,
)
    requires
        asked(a, b, request, ResolveStep::Activate { ended, activation: act }),
    ensures
        act.provider@ == request.spec.provider@,
        act.settings@ == request.spec.config@,
        act.create.key.id == request.spec.instance_id,
{
    let step = ResolveStep::<U>::Activate { ended, activation: act };
    let was = previous_of(
        record_of(a, request.spec.instance_id),
        request.spec.provider@,
        alike(a, request.spec),
        request.left,
        request.now,
    );
    if was == Previous::Drained {
        let (mid, plan): (PanelHost<U, S>, StopPlan<U>) = choose|
            mid: PanelHost<U, S>,
            plan: StopPlan<U>,
        | #[trigger]
            ended_here(a, mid, request.spec.instance_id, plan) && making(
                mid,
                b,
                request.spec,
                compact_json(request.spec.config@)->0,
                request.known,
                request.keys,
                step,
                Some(plan),
            );
        assert(prepared(
            mid,
            b,
            request.spec,
            compact_json(request.spec.config@)->0,
            request.keys,
            act,
        ));
    }
}

/// A panel that is there with the same provider and settings is used again, any other has to end
/// first; one that is ending is waited for, for five seconds, until nothing of it is left.
pub proof fn a_panel_before_is_used_or_waited_for(
    r: HostRecord,
    provider: Seq<char>,
    alike: bool,
    left: DrainReport,
    now: u64,
)
    ensures
        previous_of(None, provider, alike, left, now) is Absent,
        ({
            let p = previous_of(Some(r), provider, alike, left, now);
            &&& p is Same <==> r.drain_started is None && r.provider@ == provider && alike
            &&& p is Other <==> r.drain_started is None && !(r.provider@ == provider && alike)
            &&& p is Drained <==> r.drain_started is Some && left.pending == 0 && left.native_pending
                == 0
            &&& p is Overdue <==> r.drain_started is Some && (left.pending > 0 || left.native_pending
                > 0) && now - r.drain_started->0 >= 5000
            &&& p is Draining <==> r.drain_started is Some && (left.pending > 0 || left.native_pending
                > 0) && now - r.drain_started->0 < 5000
        }),
{
}

/// The scopes of a panel lie one in the other: its provider's under the root, its own in that, and
/// its mount's in its own.
pub proof fn the_scopes_of_a_panel_are_nested<U>(nodes: Map<u64, Node<U>>, next: u64, generation: u64)
    requires
        ROOT < next,
        next + 2 <= u64::MAX,
        generation + 2 <= u64::MAX,
        nodes.contains_key(ROOT),
    ensures
        ({
            let m = with_scopes(nodes, next, generation);
            let own = (next + 1) as u64;
            let mount = (next + 2) as u64;
            &&& m[next].parent == Some(ROOT) && m[next].kind is Provider && m[next].children == seq![own]
            &&& m[own].parent == Some(next) && m[own].kind is Instance && m[own].children == seq![mount]
            &&& m[mount].parent == Some(own) && m[mount].kind is Mount && m[mount].children.len() == 0
            &&& m[ROOT].children == nodes[ROOT].children.push(next)
            &&& m[next].local.generation == generation && m[own].local.generation == generation + 1
                && m[mount].local.generation == generation + 2
            &&& m[next].local.phase is Open && m[own].local.phase is Open && m[mount].local.phase is Open
            &&& forall|x: u64|
                x != ROOT && x != next && x != own && x != mount ==> (#[trigger] m.contains_key(x)
                    == nodes.contains_key(x)) && m[x] == nodes[x]
        }),
{
    let m = with_scopes(nodes, next, generation);
    let own = (next + 1) as u64;
    let mount = (next + 2) as u64;
    assert(m[next].children =~= seq![own]);
    assert(m[own].children =~= seq![mount]);
}

/// The services that a panel asks for are gone through until one is not published.
pub proof fn services_are_asked_for_up_to_the_first_gap<S>(es: Seq<Service<S>>, keys: Seq<ServiceKey>)
    ensures
        0 <= published_first(es, keys) <= keys.len(),
        forall|i: int| 0 <= i < published_first(es, keys) ==> has_service(es, (#[trigger] keys[i])@),
        published_first(es, keys) < keys.len() ==> !has_service(
            es,
            keys[published_first(es, keys)]@,
        ),
    decreases keys.len(),
{
    if keys.len() > 0 {
        let front = keys.drop_last();
        services_are_asked_for_up_to_the_first_gap(es, front);
        let p = published_first(es, front);
        assert forall|i: int| 0 <= i < published_first(es, keys) implies has_service(
            es,
            (#[trigger] keys[i])@,
        ) by {
            if i < p {
                assert(has_service(es, front[i]@));
            }
        }
        if p < front.len() {
            assert(front[p] == keys[p]);
        }
    }
}

/// A panel is refused as closed where nothing can be added any more, as revoked where a service is
/// missing and there are numbers left, and else because the numbers are used up.
pub proof fn a_refusal_says_why<U, S>(h: PanelHost<U, S>, keys: Seq<ServiceKey>)
    ensures
        !takes_children(h.scopes.nodes(), ROOT) <==> refusal_of(h, keys) is Closed,
        refusal_of(h, keys) is Revoked ==> exists|i: int|
            0 <= i < keys.len() && !has_service(h.services.services(), (#[trigger] keys[i])@),
        takes_children(h.scopes.nodes(), ROOT) && h.scopes.next() <= u64::MAX - 3
            && h.scopes.next_gen() <= u64::MAX - 3 && h.next_activation < u64::MAX && (exists|i: int|
            0 <= i < keys.len() && !has_service(h.services.services(), (#[trigger] keys[i])@))
            ==> refusal_of(h, keys) is Revoked,
{
}

/// What is kept of a panel is what it was made from, with its scopes and its mount, and that it is
/// not ending.
pub proof fn a_made_panel_is_kept<U, S>(a: PanelHost<U, S>, b: PanelHost<U, S>, act: Activation)
    requires
        committed(a, b, act),
    ensures
        b.records@.contains_key(act.create.key.id),
        ({
            let r = b.records@[act.create.key.id];
            &&& r.provider == act.provider && r.config == act.settings
            &&& r.activation == act.create.key.activation
            &&& r.scope == act.instance_scope && r.mount_scope == Some(act.mount_scope)
            &&& r.mount_key == Some(act.mount)
            &&& r.drain_started is None
        }),
        forall|id: u128|
            id != act.create.key.id ==> b.records@.contains_key(id) == a.records@.contains_key(id)
                && #[trigger] b.records@[id] == a.records@[id],
{
}

/// A panel that is to be made has the provider, the settings and the version that were asked for,
/// the next numbers, and a right to each of the services it asks for, held by its own scope.
pub proof fn a_prepared_panel_is_what_was_asked_for<U, S>(
    a: PanelHost<U, S>,
    b: PanelHost<U, S>,
    spec: PanelSpec,
    bytes: Seq<u8>,
    keys: Seq<ServiceKey>,
    act: Activation,
    i: int,
)
    requires
        prepared(a, b, spec, bytes, keys, act),
        0 <= i < keys.len(),
    ensures
        act.provider@ == spec.provider@ && act.settings@ == spec.config@,
        act.create.key.id == spec.instance_id && act.create.config.version == spec.config_version
            && act.create.config.bytes@ == bytes,
        act.create.key.activation == a.next_activation && b.next_activation > a.next_activation,
        act.mount.instance == act.create.key && act.mount.generation == a.next_mount && b.next_mount
            > a.next_mount,
        act.rights.len() == keys.len(),
        act.rights@[i].number() == service_of(a.services.services(), keys[i]@).cell.number(),
        act.rights@[i].holder().id == ScopeId(act.instance_scope),
        b.records@ == a.records@,
{
}

/// The services that a panel asks for list it among their users, one after the other.
pub proof fn a_panel_uses_what_it_asks_for<S>(
    es: Seq<Service<S>>,
    keys: Seq<ServiceKey>,
    key: ServiceKey,
    scope: ScopeId,
)
    ensures
        all_used(es, keys.push(key), scope) == used_by(all_used(es, keys, scope), key@, scope),
        all_used(es, Seq::empty(), scope) == es,
{
    assert(keys.push(key).drop_last() =~= keys);
}

} // verus!
