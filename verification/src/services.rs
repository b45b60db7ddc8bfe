//! The registry of services: who provides one, who uses it, and what else goes when it goes.

use crate::plugin_api::{
    is_live, Capability, Error, LeaseState, ScopeHandle, ScopeId, ServiceCell,
};
use vstd::prelude::*;

verus! {

/// Names a service: where it belongs, what it is called, which interface it has. Interfaces are
/// told apart by number.
#[derive(Clone, Copy, Debug, PartialEq, Eq)]
pub struct ServiceKey {
    namespace: &'static str,
    name: &'static str,
    api_major: u16,
    service_type: u64,
}

/// The model of a key, and of a dependency.
#[verifier::ext_equal]
pub struct Identity {
    pub namespace: Seq<char>,
    pub name: Seq<char>,
    pub api_major: u16,
    pub service_type: u64,
}

impl View for ServiceKey {
    type V = Identity;

    closed spec fn view(&self) -> Identity {
        Identity {
            namespace: self.namespace@,
            name: self.name@,
            api_major: self.api_major,
            service_type: self.service_type,
        }
    }
}

/// A service that another one needs.
#[derive(Debug, PartialEq, Eq)]
pub struct ServiceDependency {
    namespace: String,
    name: String,
    api_major: u16,
    service_type: u64,
}

impl View for ServiceDependency {
    type V = Identity;

    closed spec fn view(&self) -> Identity {
        Identity {
            namespace: self.namespace@,
            name: self.name@,
            api_major: self.api_major,
            service_type: self.service_type,
        }
    }
}

impl ServiceKey {
    pub fn new(
        namespace: &'static str,
        name: &'static str,
        api_major: u16,
        service_type: u64,
    ) -> (r: Self)
        ensures
            r@ == (Identity { namespace: namespace@, name: name@, api_major, service_type }),
    {
        ServiceKey { namespace, name, api_major, service_type }
    }

    /// The service of this key as something that another one needs.
    pub fn dependency(self) -> (r: ServiceDependency)
        ensures
            r@ == self@,
    {
        ServiceDependency {
            namespace: self.namespace.to_owned(),
            name: self.name.to_owned(),
            api_major: self.api_major,
            service_type: self.service_type,
        }
    }
}

impl ServiceDependency {
    fn same(&self, other: &ServiceDependency) -> (r: bool)
        ensures
            r == (self@ == other@),
    {
        self.namespace == other.namespace && self.name == other.name && self.api_major
            == other.api_major && self.service_type == other.service_type
    }

    fn copy(&self) -> (r: Self)
        ensures
            r@ == self@,
    {
        ServiceDependency {
            namespace: self.namespace.clone(),
            name: self.name.clone(),
            api_major: self.api_major,
            service_type: self.service_type,
        }
    }

    /// What the service is called.
    pub fn service_name(&self) -> (r: &str)
        ensures
            r@ == self@.name,
    {
        self.name.as_str()
    }
}

pub open spec fn identities(deps: Seq<ServiceDependency>) -> Seq<Identity> {
    Seq::new(deps.len(), |i: int| deps[i]@)
}

#[derive(Clone, Copy, Debug, PartialEq, Eq, Structural)]
pub enum ServiceState {
    Ready,
    Revoking,
}

struct Entry<S> {
    identity: ServiceDependency,
    provider: ScopeId,
    cell: ServiceCell<S>,
    dependencies: Vec<ServiceDependency>,
    consumers: Vec<ScopeId>,
}

/// The model of a published service.
pub struct Service<S> {
    pub id: Identity,
    pub provider: ScopeId,
    pub cell: ServiceCell<S>,
    /// What it needs.
    pub needs: Seq<Identity>,
    /// The scopes that use it.
    pub consumers: Seq<ScopeId>,
}

impl<S> View for Entry<S> {
    type V = Service<S>;

    closed spec fn view(&self) -> Service<S> {
        Service {
            id: self.identity@,
            provider: self.provider,
            cell: self.cell,
            needs: identities(self.dependencies@),
            consumers: self.consumers@,
        }
    }
}

/// Holds a service that was revoked until every scope that used it is done with it.
pub struct RevocationBarrier<S> {
    identity: ServiceDependency,
    generation: u64,
    held: Option<ServiceCell<S>>,
    pending: Vec<ScopeId>,
}

/// The model of a [`RevocationBarrier`].
pub struct Barrier<S> {
    pub id: Identity,
    pub generation: u64,
    pub held: Option<ServiceCell<S>>,
    /// The scopes that still have to be done with it.
    pub pending: Seq<ScopeId>,
}

impl<S> View for RevocationBarrier<S> {
    type V = Barrier<S>;

    closed spec fn view(&self) -> Barrier<S> {
        Barrier {
            id: self.identity@,
            generation: self.generation,
            held: self.held,
            pending: self.pending@,
        }
    }
}

/// The scopes without one of them.
pub open spec fn scopes_without(ids: Seq<ScopeId>, id: ScopeId) -> Seq<ScopeId>
    decreases ids.len(),
{
    if ids.len() == 0 {
        ids
    } else if ids.last() == id {
        scopes_without(ids.drop_last(), id)
    } else {
        scopes_without(ids.drop_last(), id).push(ids.last())
    }
}

fn scope_in(ids: &Vec<ScopeId>, id: ScopeId) -> (r: bool)
    ensures
        r == ids@.contains(id),
{
    let n: usize = ids.len();
    for i in 0..n
        invariant
            n == ids.len(),
            forall|j: int| 0 <= j < i ==> ids@[j] != id,
    {
        if ids[i] == id {
            return true;
        }
    }
    false
}

impl<S> RevocationBarrier<S> {
    pub fn generation(&self) -> (r: u64)
        ensures
            r == self@.generation,
    {
        self.generation
    }

    /// The scopes that still have to be done with the service.
    pub fn pending_consumers(&self) -> (r: &Vec<ScopeId>)
        ensures
            r@ == self@.pending,
    {
        &self.pending
    }

    /// A scope is done with the service. After the last one the service itself goes.
    pub fn acknowledge(&mut self, consumer: ScopeId)
        ensures
            final(self)@ == (Barrier {
                pending: scopes_without(old(self)@.pending, consumer),
                held: if scopes_without(old(self)@.pending, consumer).len() == 0 {
                    None
                } else {
                    old(self)@.held
                },
                ..old(self)@
            }),
    {
        let ghost all = self.pending@;
        let mut left: Vec<ScopeId> = Vec::new();
        let n: usize = self.pending.len();
        for i in 0..n
            invariant
                n == self.pending.len(),
                all == self.pending@,
                self@ == old(self)@,
                left@ == scopes_without(all.take(i as int), consumer),
        {
            assert(all.take(i + 1).drop_last() =~= all.take(i as int));
            if self.pending[i] != consumer {
                left.push(self.pending[i]);
            }
        }
        assert(all.take(n as int) =~= all);
        let none_left: bool = left.len() == 0;
        self.pending = left;
        if none_left {
            self.held = None;
        }
    }

    /// Whether every scope is done with the service.
    pub fn is_complete(&self) -> (r: bool)
        ensures
            r == (self@.pending.len() == 0),
    {
        self.pending.len() == 0
    }

    /// What the service was called.
    pub fn service_name(&self) -> (r: &str)
        ensures
            r@ == self@.id.name,
    {
        self.identity.service_name()
    }
}

/// The services that are published. `S` is what the host holds a service as.
pub struct ServiceRegistry<S> {
    entries: Vec<Entry<S>>,
    next_generation: u64,
}

pub open spec fn has_service<S>(es: Seq<Service<S>>, id: Identity) -> bool {
    exists|i: int| service_at(es, id, i)
}

pub open spec fn service_at<S>(es: Seq<Service<S>>, id: Identity, i: int) -> bool {
    0 <= i < es.len() && es[i].id == id
}

/// The service `id`.
pub open spec fn service_of<S>(es: Seq<Service<S>>, id: Identity) -> Service<S> {
    es[choose|i: int| service_at(es, id, i)]
}

/// No service is published twice, every service that one needs is published, and generations are
/// below the next one.
pub open spec fn services_ok<S>(es: Seq<Service<S>>, next: u64) -> bool {
    &&& forall|i: int, j: int|
        0 <= i < es.len() && 0 <= j < es.len() && (#[trigger] es[i]).id == (#[trigger] es[j]).id
            ==> i == j
    &&& forall|i: int, d: int|
        0 <= i < es.len() && 0 <= d < es[i].needs.len() ==> has_service(
            es,
            #[trigger] es[i].needs[d],
        )
    &&& forall|i: int|
        0 <= i < es.len() ==> (#[trigger] es[i]).cell.is_ready() && es[i].cell.number() < next
}

/// Service `i` needs service `j`.
pub open spec fn needs<S>(es: Seq<Service<S>>, i: int, j: int) -> bool {
    0 <= i < es.len() && 0 <= j < es.len() && es[i].needs.contains(es[j].id)
}

/// Service `i` is `target`, or needs it through at most `k` others.
pub open spec fn reaches<S>(es: Seq<Service<S>>, i: int, target: Identity, k: nat) -> bool
    decreases k,
{
    es[i].id == target || (k > 0 && exists|j: int| #[trigger]
        needs(es, i, j) && reaches(es, j, target, (k - 1) as nat))
}

/// Service `i` goes when `target` goes.
pub open spec fn goes_with<S>(es: Seq<Service<S>>, i: int, target: Identity) -> bool {
    exists|k: nat| reaches(es, i, target, k)
}

/// Of the first `n` services those that stay when `target` goes, in order.
pub open spec fn staying<S>(es: Seq<Service<S>>, target: Identity, n: int) -> Seq<Service<S>>
    decreases n,
{
    if n <= 0 {
        Seq::empty()
    } else if goes_with(es, n - 1, target) {
        staying(es, target, n - 1)
    } else {
        staying(es, target, n - 1).push(es[n - 1])
    }
}

/// Of the first `n` services those that go when `target` goes, in order.
pub open spec fn going<S>(es: Seq<Service<S>>, target: Identity, n: int) -> Seq<Service<S>>
    decreases n,
{
    if n <= 0 {
        Seq::empty()
    } else if goes_with(es, n - 1, target) {
        going(es, target, n - 1).push(es[n - 1])
    } else {
        going(es, target, n - 1)
    }
}

/// The barrier holds the service, which can no longer be used, for the scopes that used it.
pub open spec fn is_barrier_of<S>(b: Barrier<S>, s: Service<S>) -> bool {
    &&& b.id == s.id
    &&& b.generation == s.cell.number()
    &&& b.pending == s.consumers
    &&& b.held matches Some(c) && !c.is_ready() && c.number() == s.cell.number() && c.held()
        == s.cell.held()
}

impl<S> ServiceRegistry<S> {
    /// The services, in the order in which they were published.
    pub closed spec fn services(&self) -> Seq<Service<S>> {
        Seq::new(self.entries.len() as nat, |i: int| self.entries@[i]@)
    }

    /// The generation that the next service gets.
    pub closed spec fn next(&self) -> u64 {
        self.next_generation
    }

    pub open spec fn wf(&self) -> bool {
        services_ok(self.services(), self.next())
    }

    pub fn new() -> (r: Self)
        ensures
            r.wf(),
            r.services() == Seq::<Service<S>>::empty(),
            r.next() == 1,
    {
        let r = ServiceRegistry { entries: Vec::new(), next_generation: 1 };
        assert(r.services() =~= Seq::<Service<S>>::empty());
        r
    }

    fn find(&self, id: &ServiceDependency) -> (r: Option<usize>)
        ensures
            match r {
                Some(i) => service_at(self.services(), id@, i as int),
                None => !has_service(self.services(), id@),
            },
    {
        let n: usize = self.entries.len();
        for i in 0..n
            invariant
                n == self.entries.len(),
                forall|j: int| 0 <= j < i ==> !#[trigger] service_at(self.services(), id@, j),
        {
            if self.entries[i].identity.same(id) {
                return Some(i);
            }
        }
        None
    }

    fn all_published(&self, deps: &Vec<ServiceDependency>) -> (r: bool)
        ensures
            r == forall|d: int|
                0 <= d < deps.len() ==> has_service(
                    self.services(),
                    #[trigger] identities(deps@)[d],
                ),
    {
        let n: usize = deps.len();
        for d in 0..n
            invariant
                n == deps.len(),
                forall|j: int|
                    0 <= j < d ==> has_service(self.services(), #[trigger] identities(deps@)[j]),
        {
            match self.find(&deps[d]) {
                Some(i) => {
                    assert(service_at(self.services(), identities(deps@)[d as int], i as int));
                },
                None => {
                    assert(!has_service(self.services(), identities(deps@)[d as int]));
                    return false;
                },
            }
        }
        true
    }

    /// Publishes a service that needs no other.
    pub fn publish(&mut self, key: ServiceKey, provider: ScopeId, service: S) -> (r: Result<
        u64,
        Error,
    >)
        requires
            old(self).wf(),
        ensures
            final(self).wf(),
            published(
                *old(self),
                *final(self),
                key@,
                provider,
                service,
                Seq::<Identity>::empty(),
                r,
            ),
    {
        let none: Vec<ServiceDependency> = Vec::new();
        let r = self.publish_with_dependencies(key, provider, service, &none);
        assert(identities(none@) =~= Seq::<Identity>::empty());
        r
    }

    /// Publishes a service under a new generation. Refused where it is published already, or a
    /// service that it needs is not; so none needs itself.
    pub fn publish_with_dependencies(
        &mut self,
        key: ServiceKey,
        provider: ScopeId,
        service: S,
        dependencies: &Vec<ServiceDependency>,
    ) -> (r: Result<u64, Error>)
        requires
            old(self).wf(),
        ensures
            final(self).wf(),
            published(
                *old(self),
                *final(self),
                key@,
                provider,
                service,
                identities(dependencies@),
                r,
            ),
    {
        let identity = key.dependency();
        let ghost es = self.services();
        match self.find(&identity) {
            Some(i) => {
                assert(service_at(es, key@, i as int));
                return Err(Error::Duplicate);
            },
            None => {},
        }
        if !self.all_published(dependencies) {
            return Err(Error::Revoked);
        }
        let generation: u64 = self.next_generation;
        if generation == u64::MAX {
            return Err(Error::Exhausted);
        }
        self.next_generation = generation + 1;
        let mut needed: Vec<ServiceDependency> = Vec::new();
        let n: usize = dependencies.len();
        for d in 0..n
            invariant
                n == dependencies.len(),
                needed.len() == d,
                forall|j: int| 0 <= j < d ==> (#[trigger] needed@[j])@ == dependencies@[j]@,
        {
            needed.push(dependencies[d].copy());
        }
        assert(identities(needed@) =~= identities(dependencies@));
        let cell = ServiceCell::new(generation, service);
        self.entries.push(
            Entry { identity, provider, cell, dependencies: needed, consumers: Vec::new() },
        );
        proof {
            let new = self.services().last();
            let now = self.services();
            assert(now =~= es.push(new));
            assert(now.drop_last() =~= es);
            assert(new.needs == identities(dependencies@));
            assert(new.consumers =~= Seq::<ScopeId>::empty());
            lemma_pushed(es, new, generation);
        }
        Ok(generation)
    }

    /// Gives a scope the right to use a service, as long as the scope is open.
    pub fn resolve(
        &mut self,
        key: ServiceKey,
        consumer_scope: ScopeId,
        consumer: ScopeHandle,
        now: Option<LeaseState>,
    ) -> (r: Result<Capability, Error>)
        requires
            old(self).wf(),
        ensures
            final(self).wf(),
            final(self).next() == old(self).next(),
            match r {
                Ok(c) => {
                    let es = old(self).services();
                    &&& is_live(consumer, now)
                    &&& has_service(es, key@)
                    &&& c.number() == service_of(es, key@).cell.number()
                    &&& c.holder() == consumer
                    &&& final(self).services() == used_by(es, key@, consumer_scope)
                },
                Err(e) => {
                    &&& final(self).services() == old(self).services()
                    &&& !is_live(consumer, now) ==> e == Error::Closed
                    &&& is_live(consumer, now) ==> !has_service(old(self).services(), key@) && e
                        == Error::Revoked
                },
            },
    {
        match consumer.check(now) {
            Ok(_) => {},
            Err(e) => {
                return Err(e);
            },
        }
        let identity = key.dependency();
        let ghost es = self.services();
        match self.find(&identity) {
            Some(i) => {
                proof {
                    lemma_service_of(es, key@, i as int);
                }
                if !scope_in(&self.entries[i].consumers, consumer_scope) {
                    self.entries[i].consumers.push(consumer_scope);
                }
                proof {
                    let now_es = self.services();
                    assert(now_es =~= used_by(es, key@, consumer_scope));
                    lemma_used_by(es, key@, consumer_scope, i as int, self.next_generation);
                }
                Ok(Capability::new(&self.entries[i].cell, consumer))
            },
            None => Err(Error::Revoked),
        }
    }

    /// Where a service is held; nothing where it is not published.
    pub fn cell(&self, key: ServiceKey) -> (r: Option<&ServiceCell<S>>)
        requires
            self.wf(),
        ensures
            r is Some <==> has_service(self.services(), key@),
            r matches Some(c) ==> *c == service_of(self.services(), key@).cell,
    {
        let identity = key.dependency();
        match self.find(&identity) {
            Some(i) => {
                proof {
                    lemma_service_of(self.services(), key@, i as int);
                }
                Some(&self.entries[i].cell)
            },
            None => None,
        }
    }

    pub fn state(&self, key: ServiceKey) -> (r: Option<ServiceState>)
        ensures
            r == if has_service(self.services(), key@) {
                Some(ServiceState::Ready)
            } else {
                None
            },
    {
        let identity = key.dependency();
        match self.find(&identity) {
            Some(i) => {
                assert(service_at(self.services(), key@, i as int));
                Some(ServiceState::Ready)
            },
            None => None,
        }
    }

    /// The scope that provides a service.
    pub fn provider(&self, key: ServiceKey) -> (r: Option<ScopeId>)
        requires
            self.wf(),
        ensures
            r == if has_service(self.services(), key@) {
                Some(service_of(self.services(), key@).provider)
            } else {
                None
            },
    {
        let identity = key.dependency();
        match self.find(&identity) {
            Some(i) => {
                proof {
                    lemma_service_of(self.services(), key@, i as int);
                }
                Some(self.entries[i].provider)
            },
            None => None,
        }
    }
}

/// The services once a scope was noted among the users of one.
pub open spec fn used_by<S>(es: Seq<Service<S>>, id: Identity, scope: ScopeId) -> Seq<Service<S>> {
    Seq::new(
        es.len(),
        |i: int|
            if es[i].id == id && !es[i].consumers.contains(scope) {
                Service { consumers: es[i].consumers.push(scope), ..es[i] }
            } else {
                es[i]
            },
    )
}

/// What publishing comes to.
pub open spec fn published<S>(
    a: ServiceRegistry<S>,
    b: ServiceRegistry<S>,
    id: Identity,
    provider: ScopeId,
    service: S,
    needed: Seq<Identity>,
    r: Result<u64, Error>,
) -> bool {
    let es = a.services();
    let there = forall|d: int| 0 <= d < needed.len() ==> has_service(es, #[trigger] needed[d]);
    match r {
        Ok(g) => {
            &&& !has_service(es, id)
            &&& there
            &&& g == a.next()
            &&& b.next() == g + 1
            &&& b.services().len() == es.len() + 1
            &&& b.services().drop_last() == es
            &&& ({
                let new = b.services().last();
                &&& new.id == id
                &&& new.provider == provider
                &&& new.cell.number() == g
                &&& new.cell.is_ready()
                &&& new.cell.held() == service
                &&& new.needs == needed
                &&& new.consumers == Seq::<ScopeId>::empty()
            })
        },
        Err(e) => {
            &&& b.services() == es
            &&& b.next() == a.next()
            &&& e == if has_service(es, id) {
                Error::Duplicate
            } else if !there {
                Error::Revoked
            } else {
                Error::Exhausted
            }
            &&& !has_service(es, id) && there ==> a.next() == u64::MAX
        },
    }
}

proof fn lemma_service_of<S>(es: Seq<Service<S>>, id: Identity, i: int)
    requires
        forall|i: int, j: int|
            0 <= i < es.len() && 0 <= j < es.len() && (#[trigger] es[i]).id == (
            #[trigger] es[j]).id ==> i == j,
        service_at(es, id, i),
    ensures
        has_service(es, id),
        service_of(es, id) == es[i],
{
    let k = choose|k: int| service_at(es, id, k);
    assert(service_at(es, id, k));
    assert(es[k].id == es[i].id);
}

proof fn lemma_pushed<S>(es: Seq<Service<S>>, new: Service<S>, next: u64)
    requires
        services_ok(es, next),
        !has_service(es, new.id),
        forall|d: int| 0 <= d < new.needs.len() ==> has_service(es, #[trigger] new.needs[d]),
        new.cell.is_ready(),
        new.cell.number() == next,
        next < u64::MAX,
    ensures
        services_ok(es.push(new), (next + 1) as u64),
{
    let all = es.push(new);
    assert forall|i: int, j: int|
        0 <= i < all.len() && 0 <= j < all.len() && (#[trigger] all[i]).id == (
        #[trigger] all[j]).id implies i == j by {
        if i < es.len() && j == es.len() {
            assert(service_at(es, new.id, i));
        }
        if j < es.len() && i == es.len() {
            assert(service_at(es, new.id, j));
        }
    }
    assert forall|i: int, d: int|
        0 <= i < all.len() && 0 <= d < all[i].needs.len() implies has_service(
        all,
        #[trigger] all[i].needs[d],
    ) by {
        let id = all[i].needs[d];
        if i < es.len() {
            assert(has_service(es, es[i].needs[d]));
        }
        let k = choose|k: int| service_at(es, id, k);
        assert(service_at(all, id, k));
    }
}

proof fn lemma_used_by<S>(es: Seq<Service<S>>, id: Identity, scope: ScopeId, i: int, next: u64)
    requires
        services_ok(es, next),
        service_at(es, id, i),
    ensures
        services_ok(used_by(es, id, scope), next),
{
    let all = used_by(es, id, scope);
    assert forall|i: int, j: int|
        0 <= i < all.len() && 0 <= j < all.len() && (#[trigger] all[i]).id == (
        #[trigger] all[j]).id implies i == j by {
        assert(es[i].id == es[j].id);
    }
    assert forall|i: int, d: int|
        0 <= i < all.len() && 0 <= d < all[i].needs.len() implies has_service(
        all,
        #[trigger] all[i].needs[d],
    ) by {
        let x = es[i].needs[d];
        assert(has_service(es, es[i].needs[d]));
        let k = choose|k: int| service_at(es, x, k);
        assert(service_at(all, x, k));
    }
    assert forall|i: int| 0 <= i < all.len() implies (#[trigger] all[i]).cell.is_ready()
        && all[i].cell.number() < next by {
        assert(es[i].cell.is_ready());
    }
}

// ---- revoking -----------------------------------------------------------------------------

spec fn count_true(m: Seq<bool>) -> nat
    decreases m.len(),
{
    if m.len() == 0 {
        0
    } else {
        count_true(m.drop_last()) + if m.last() {
            1nat
        } else {
            0nat
        }
    }
}

proof fn lemma_count_true(m: Seq<bool>)
    ensures
        count_true(m) <= m.len(),
    decreases m.len(),
{
    if m.len() > 0 {
        lemma_count_true(m.drop_last());
    }
}

proof fn lemma_set_true(m: Seq<bool>, i: int)
    requires
        0 <= i < m.len(),
        !m[i],
    ensures
        count_true(m.update(i, true)) == count_true(m) + 1,
    decreases m.len(),
{
    let u = m.update(i, true);
    if i == m.len() - 1 {
        assert(u.drop_last() =~= m.drop_last());
    } else {
        lemma_set_true(m.drop_last(), i);
        assert(u.drop_last() =~= m.drop_last().update(i, true));
    }
}

/// Some marked service is needed by service `i`.
spec fn needs_marked<S>(es: Seq<Service<S>>, marks: Seq<bool>, i: int) -> bool {
    exists|j: int| #[trigger] needs(es, i, j) && marks[j]
}

proof fn lemma_goes_too<S>(es: Seq<Service<S>>, i: int, j: int, target: Identity)
    requires
        needs(es, i, j),
        goes_with(es, j, target),
    ensures
        goes_with(es, i, target),
{
    let k = choose|k: nat| reaches(es, j, target, k);
    assert(reaches(es, i, target, k + 1));
}

/// Marks that are closed under need have everything that goes.
proof fn lemma_marks_complete<S>(
    es: Seq<Service<S>>,
    marks: Seq<bool>,
    target: Identity,
    i: int,
    k: nat,
)
    requires
        marks.len() == es.len(),
        forall|i: int| 0 <= i < es.len() && (#[trigger] es[i]).id == target ==> marks[i],
        forall|i: int| 0 <= i < es.len() && #[trigger] needs_marked(es, marks, i) ==> marks[i],
        0 <= i < es.len(),
        reaches(es, i, target, k),
    ensures
        marks[i],
    decreases k,
{
    if es[i].id != target {
        let j = choose|j: int| #[trigger]
            needs(es, i, j) && reaches(es, j, target, (k - 1) as nat);
        lemma_marks_complete(es, marks, target, j, (k - 1) as nat);
        assert(needs_marked(es, marks, i));
    }
}

/// The service is one of the first `n`, and stays.
spec fn is_staying<S>(es: Seq<Service<S>>, target: Identity, n: int, s: Service<S>) -> bool {
    exists|i: int| 0 <= i < n && !#[trigger] goes_with(es, i, target) && s == es[i]
}

proof fn lemma_staying<S>(es: Seq<Service<S>>, target: Identity, n: int)
    requires
        0 <= n <= es.len(),
    ensures
        forall|x: int|
            0 <= x < staying(es, target, n).len() ==> is_staying(
                es,
                target,
                n,
                #[trigger] staying(es, target, n)[x],
            ),
        forall|i: int|
            0 <= i < n && !#[trigger] goes_with(es, i, target) ==> staying(es, target, n).contains(
                es[i],
            ),
    decreases n,
{
    if n > 0 {
        lemma_staying(es, target, n - 1);
        let rest = staying(es, target, n - 1);
        let all = staying(es, target, n);
        if !goes_with(es, n - 1, target) {
            assert(all == rest.push(es[n - 1]));
            assert forall|i: int| 0 <= i < n && !#[trigger] goes_with(es, i, target) implies
                all.contains(es[i]) by {
                if i < n - 1 {
                    assert(rest.contains(es[i]));
                    assert(all[rest.index_of(es[i])] == es[i]);
                } else {
                    assert(all[all.len() - 1] == es[i]);
                }
            }
            assert forall|x: int| 0 <= x < all.len() implies is_staying(
                es,
                target,
                n,
                #[trigger] all[x],
            ) by {
                if x < rest.len() {
                    assert(is_staying(es, target, n - 1, rest[x]));
                    let i = choose|i: int|
                        0 <= i < n - 1 && !#[trigger] goes_with(es, i, target) && rest[x] == es[i];
                    assert(!goes_with(es, i, target) && all[x] == es[i]);
                } else {
                    assert(!goes_with(es, n - 1, target) && all[x] == es[n - 1]);
                }
            }
        }
    }
}

/// What is left after a service was revoked needs nothing that is gone, and is still published
/// once each.
pub proof fn revoking_leaves_no_gaps<S>(es: Seq<Service<S>>, target: Identity, next: u64)
    requires
        services_ok(es, next),
    ensures
        services_ok(staying(es, target, es.len() as int), next),
        !has_service(staying(es, target, es.len() as int), target),
{
    let n = es.len() as int;
    let left = staying(es, target, n);
    lemma_staying(es, target, n);
    lemma_staying_distinct(es, target, n);
    assert forall|x: int, d: int|
        0 <= x < left.len() && 0 <= d < left[x].needs.len() implies has_service(
        left,
        #[trigger] left[x].needs[d],
    ) by {
        assert(is_staying(es, target, n, left[x]));
        let i = choose|i: int|
            0 <= i < n && !#[trigger] goes_with(es, i, target) && left[x] == es[i];
        let id = es[i].needs[d];
        assert(has_service(es, es[i].needs[d]));
        let j = choose|j: int| service_at(es, id, j);
        assert(es[i].needs.contains(es[j].id));
        assert(needs(es, i, j));
        if goes_with(es, j, target) {
            lemma_goes_too(es, i, j, target);
        }
        assert(left.contains(es[j]));
        assert(service_at(left, id, left.index_of(es[j])));
    }
    assert forall|x: int| 0 <= x < left.len() implies (#[trigger] left[x]).cell.is_ready()
        && left[x].cell.number() < next && left[x].id != target by {
        assert(is_staying(es, target, n, left[x]));
        let i = choose|i: int|
            0 <= i < n && !#[trigger] goes_with(es, i, target) && left[x] == es[i];
        assert(es[i].cell.is_ready());
        if es[i].id == target {
            assert(reaches(es, i, target, 0));
        }
    }
    assert forall|x: int| !service_at(left, target, x) by {
        if service_at(left, target, x) {
            assert(left[x].id != target);
        }
    }
}

proof fn lemma_staying_distinct<S>(es: Seq<Service<S>>, target: Identity, n: int)
    requires
        0 <= n <= es.len(),
        forall|i: int, j: int|
            0 <= i < es.len() && 0 <= j < es.len() && (#[trigger] es[i]).id == (
            #[trigger] es[j]).id ==> i == j,
    ensures
        forall|i: int, j: int|
            0 <= i < staying(es, target, n).len() && 0 <= j < staying(es, target, n).len() && (
            #[trigger] staying(es, target, n)[i]).id == (#[trigger] staying(es, target, n)[j]).id
                ==> i == j,
    decreases n,
{
    if n > 0 {
        lemma_staying_distinct(es, target, n - 1);
        lemma_staying(es, target, n - 1);
        let rest = staying(es, target, n - 1);
        let all = staying(es, target, n);
        if !goes_with(es, n - 1, target) {
            assert forall|i: int, j: int|
                0 <= i < all.len() && 0 <= j < all.len() && (#[trigger] all[i]).id == (
                #[trigger] all[j]).id implies i == j by {
                if i < rest.len() && j == rest.len() {
                    assert(is_staying(es, target, n - 1, rest[i]));
                    let m = choose|m: int|
                        0 <= m < n - 1 && !#[trigger] goes_with(es, m, target) && rest[i] == es[m];
                    assert(es[m].id == es[n - 1].id);
                }
                if j < rest.len() && i == rest.len() {
                    assert(is_staying(es, target, n - 1, rest[j]));
                    let m = choose|m: int|
                        0 <= m < n - 1 && !#[trigger] goes_with(es, m, target) && rest[j] == es[m];
                    assert(es[m].id == es[n - 1].id);
                }
            }
        }
    }
}

impl<S> ServiceRegistry<S> {
    fn one_needs_marked(&self, i: usize, marks: &Vec<bool>) -> (r: bool)
        requires
            self.wf(),
            i < self.services().len(),
            marks.len() == self.services().len(),
        ensures
            r == needs_marked(self.services(), marks@, i as int),
    {
        let ghost es = self.services();
        let n: usize = self.entries[i].dependencies.len();
        let ghost ids = es[i as int].needs;
        assert(ids == identities(self.entries@[i as int].dependencies@));
        for d in 0..n
            invariant
                self.wf(),
                es == self.services(),
                i < es.len(),
                es.len() == self.entries.len(),
                marks.len() == es.len(),
                ids == es[i as int].needs,
                ids == identities(self.entries@[i as int].dependencies@),
                n == self.entries@[i as int].dependencies.len(),
                forall|c: int, j: int|
                    0 <= c < d && service_at(es, #[trigger] ids[c], j) ==> !(#[trigger] marks@[j]),
        {
            match self.find(&self.entries[i].dependencies[d]) {
                Some(j) => {
                    if marks[j] {
                        assert(ids[d as int] == es[j as int].id);
                        assert(ids.contains(es[j as int].id));
                        assert(needs(es, i as int, j as int));
                        return true;
                    }
                    assert forall|k: int| service_at(es, ids[d as int], k) implies k == j by {
                        assert(es[k].id == es[j as int].id);
                    }
                },
                None => {
                    assert(has_service(es, es[i as int].needs[d as int]));
                },
            }
        }
        proof {
            assert forall|j: int| #[trigger] needs(es, i as int, j) implies !marks@[j] by {
                let c = ids.index_of(es[j].id);
                assert(service_at(es, ids[c], j));
                let seen = marks@[j];
            }
        }
        false
    }

    fn mark_going(&self, target: &ServiceDependency, at: usize) -> (r: Vec<bool>)
        requires
            self.wf(),
            service_at(self.services(), target@, at as int),
        ensures
            r.len() == self.services().len(),
            forall|i: int|
                0 <= i < r.len() ==> #[trigger] r@[i] == goes_with(self.services(), i, target@),
    {
        let ghost es = self.services();
        let n: usize = self.entries.len();
        let mut marks: Vec<bool> = Vec::new();
        for i in 0..n
            invariant
                n == self.entries.len(),
                marks.len() == i,
                forall|j: int| 0 <= j < i ==> #[trigger] marks@[j] == (j == at),
        {
            marks.push(i == at);
        }
        assert(reaches(es, at as int, target@, 0));
        let mut changed = true;
        while changed
            invariant
                self.wf(),
                es == self.services(),
                n == es.len(),
                marks.len() == n,
                at < n,
                es[at as int].id == target@,
                marks@[at as int],
                forall|i: int| 0 <= i < n && #[trigger] marks@[i] ==> goes_with(es, i, target@),
                !changed ==> forall|i: int|
                    0 <= i < n && #[trigger] needs_marked(es, marks@, i) ==> marks@[i],
            decreases
                    n - count_true(marks@),
                    if changed {
                        1int
                    } else {
                        0int
                    },
        {
            let ghost start = marks@;
            changed = false;
            proof {
                lemma_count_true(marks@);
            }
            for i in 0..n
                invariant
                    self.wf(),
                    es == self.services(),
                    n == es.len(),
                    marks.len() == n,
                    at < n,
                    marks@[at as int],
                    forall|j: int|
                        0 <= j < n && #[trigger] marks@[j] ==> goes_with(es, j, target@),
                    count_true(marks@) <= n,
                    !changed ==> marks@ == start,
                    changed ==> count_true(marks@) > count_true(start),
                    !changed ==> forall|j: int|
                        0 <= j < i && #[trigger] needs_marked(es, marks@, j) ==> marks@[j],
            {
                if !marks[i] && self.one_needs_marked(i, &marks) {
                    proof {
                        let j = choose|j: int| #[trigger] needs(es, i as int, j) && marks@[j];
                        lemma_goes_too(es, i as int, j, target@);
                        lemma_set_true(marks@, i as int);
                    }
                    marks.set(i, true);
                    changed = true;
                    proof {
                        lemma_count_true(marks@);
                    }
                }
            }
        }
        proof {
            assert forall|i: int| 0 <= i < n implies #[trigger] marks@[i] == goes_with(
                es,
                i,
                target@,
            ) by {
                if goes_with(es, i, target@) {
                    let k = choose|k: nat| reaches(es, i, target@, k);
                    assert forall|j: int| 0 <= j < es.len() && (#[trigger] es[j]).id
                        == target@ implies marks@[j] by {
                        assert(es[j].id == es[at as int].id);
                    }
                    lemma_marks_complete(es, marks@, target@, i, k);
                }
            }
        }
        marks
    }

    /// Revokes a service and every service that needs it, directly or through others. Returns what
    /// holds them until the scopes that used them are done.
    pub fn revoke(&mut self, key: ServiceKey) -> (r: Result<Vec<RevocationBarrier<S>>, Error>)
        requires
            old(self).wf(),
        ensures
            final(self).wf(),
            final(self).next() == old(self).next(),
            r is Ok <==> has_service(old(self).services(), key@),
            match r {
                Err(e) => e == Error::Revoked && final(self).services() == old(self).services(),
                Ok(barriers) => {
                    let es = old(self).services();
                    let gone = going(es, key@, es.len() as int);
                    &&& final(self).services() == staying(es, key@, es.len() as int)
                    &&& barriers.len() == gone.len()
                    &&& forall|i: int|
                        0 <= i < gone.len() ==> is_barrier_of((#[trigger] barriers@[i])@, gone[i])
                },
            },
    {
        let target = key.dependency();
        let at: usize = match self.find(&target) {
            Some(i) => i,
            None => {
                return Err(Error::Revoked);
            },
        };
        let ghost es = self.services();
        let ghost id = key@;
        assert(service_at(es, id, at as int));
        let marks = self.mark_going(&target, at);
        let mut rest: Vec<Entry<S>> = Vec::new();
        std::mem::swap(&mut rest, &mut self.entries);
        let ghost all = rest@;
        let mut barriers: Vec<RevocationBarrier<S>> = Vec::new();
        let n: usize = marks.len();
        let ghost none = self.services();
        assert(none =~= Seq::<Service<S>>::empty());
        assert(all.skip(0) =~= all);
        for i in 0..n
            invariant
                n == marks.len(),
                n == all.len(),
                n == es.len(),
                rest@ == all.skip(i as int),
                forall|j: int| 0 <= j < n ==> #[trigger] all[j]@ == es[j],
                forall|j: int| 0 <= j < n ==> #[trigger] marks@[j] == goes_with(es, j, id),
                self.next() == old(self).next(),
                self.services() == staying(es, id, i as int),
                barriers.len() == going(es, id, i as int).len(),
                forall|j: int|
                    0 <= j < barriers.len() ==> is_barrier_of(
                        (#[trigger] barriers@[j])@,
                        going(es, id, i as int)[j],
                    ),
        {
            let ghost before = self.services();
            let ghost earlier = barriers@;
            let ghost gone = going(es, id, i as int);
            let entry = rest.remove(0);
            proof {
                assert(entry == all[i as int]);
                assert(entry@ == es[i as int]);
                assert(rest@ =~= all.skip(i + 1));
            }
            if marks[i] {
                let Entry { identity, provider, cell, dependencies, consumers } = entry;
                let mut cell = cell;
                let generation: u64 = cell.generation();
                cell.revoke();
                barriers.push(
                    RevocationBarrier { identity, generation, held: Some(cell), pending: consumers },
                );
                proof {
                    assert(going(es, id, i + 1) == gone.push(es[i as int]));
                    assert(is_barrier_of(barriers@.last()@, es[i as int]));
                    assert forall|j: int| 0 <= j < barriers.len() implies is_barrier_of(
                        (#[trigger] barriers@[j])@,
                        going(es, id, i + 1)[j],
                    ) by {
                        if j < earlier.len() {
                            assert(barriers@[j] == earlier[j]);
                        }
                    }
                }
            } else {
                self.entries.push(entry);
                assert(self.services() =~= before.push(es[i as int]));
            }
        }
        proof {
            revoking_leaves_no_gaps(es, id, self.next_generation);
        }
        Ok(barriers)
    }
}

/// A service that is published again is not the one it was before: rights to use any earlier
/// service do not fit it, because generations are not used twice.
pub proof fn a_new_service_has_a_new_generation<S>(
    a: ServiceRegistry<S>,
    b: ServiceRegistry<S>,
    id: Identity,
    provider: ScopeId,
    service: S,
    needed: Seq<Identity>,
    r: Result<u64, Error>,
    c: Capability,
)
    requires
        a.wf(),
        published(a, b, id, provider, service, needed, r),
        r is Ok,
        c.number() < a.next(),
    ensures
        b.services().last().cell.number() != c.number(),
        forall|i: int|
            0 <= i < a.services().len() ==> (#[trigger] a.services()[i]).cell.number()
                != b.services().last().cell.number(),
{
}

/// A service goes with another where it is that one, or needs one that goes; no other does.
pub proof fn services_go_with_what_they_need<S>(es: Seq<Service<S>>, i: int, target: Identity)
    requires
        0 <= i < es.len(),
    ensures
        goes_with(es, i, target) <==> es[i].id == target || exists|j: int|
            0 <= j < es.len() && es[i].needs.contains((#[trigger] es[j]).id) && goes_with(
                es,
                j,
                target,
            ),
{
    if es[i].id == target {
        assert(reaches(es, i, target, 0));
    }
    if goes_with(es, i, target) && es[i].id != target {
        let k = choose|k: nat| reaches(es, i, target, k);
        let j = choose|j: int| #[trigger] needs(es, i, j) && reaches(es, j, target, (k - 1) as nat);
        assert(goes_with(es, j, target));
        assert(es[i].needs.contains(es[j].id));
    }
    if exists|j: int|
        0 <= j < es.len() && es[i].needs.contains((#[trigger] es[j]).id) && goes_with(es, j, target) {
        let j = choose|j: int|
            0 <= j < es.len() && es[i].needs.contains((#[trigger] es[j]).id) && goes_with(
                es,
                j,
                target,
            );
        let k = choose|k: nat| reaches(es, j, target, k);
        assert(needs(es, i, j));
        assert(reaches(es, i, target, k + 1));
    }
}

/// Services that need nothing that goes stay: where a set of services holds all that its members
/// need, and not the one that goes, none of the set goes.
pub proof fn independent_services_stay<S>(
    es: Seq<Service<S>>,
    target: Identity,
    keep: Set<int>,
    i: int,
)
    requires
        keep.contains(i),
        forall|a: int| #[trigger] keep.contains(a) ==> 0 <= a < es.len() && es[a].id != target,
        forall|a: int, b: int|
            keep.contains(a) && #[trigger] needs(es, a, b) ==> keep.contains(b),
    ensures
        !goes_with(es, i, target),
{
    if goes_with(es, i, target) {
        let k = choose|k: nat| reaches(es, i, target, k);
        lemma_kept(es, target, keep, i, k);
    }
}

proof fn lemma_kept<S>(es: Seq<Service<S>>, target: Identity, keep: Set<int>, i: int, k: nat)
    requires
        keep.contains(i),
        forall|a: int| #[trigger] keep.contains(a) ==> 0 <= a < es.len() && es[a].id != target,
        forall|a: int, b: int|
            keep.contains(a) && #[trigger] needs(es, a, b) ==> keep.contains(b),
    ensures
        !reaches(es, i, target, k),
    decreases k,
{
    if reaches(es, i, target, k) {
        let j = choose|j: int| #[trigger] needs(es, i, j) && reaches(es, j, target, (k - 1) as nat);
        assert(keep.contains(j));
        lemma_kept(es, target, keep, j, (k - 1) as nat);
    }
}

/// Every service either goes or stays, in the order they were in.
pub proof fn services_go_or_stay<S>(es: Seq<Service<S>>, target: Identity, n: int)
    requires
        0 <= n <= es.len(),
    ensures
        staying(es, target, n) == Seq::new(n as nat, |i: int| i).filter(
            |i: int| !goes_with(es, i, target),
        ).map_values(|i: int| es[i]),
        going(es, target, n) == Seq::new(n as nat, |i: int| i).filter(
            |i: int| goes_with(es, i, target),
        ).map_values(|i: int| es[i]),
    decreases n,
{
    reveal(Seq::filter);
    let p = |i: int| !goes_with(es, i, target);
    let q = |i: int| goes_with(es, i, target);
    let g = |i: int| es[i];
    if n > 0 {
        services_go_or_stay(es, target, n - 1);
        let s = Seq::new(n as nat, |i: int| i);
        let t = Seq::new((n - 1) as nat, |i: int| i);
        assert(s.drop_last() =~= t);
        assert(s.last() == n - 1);
        assert(t.filter(p).push(n - 1).map_values(g) =~= t.filter(p).map_values(g).push(g(n - 1)));
        assert(t.filter(q).push(n - 1).map_values(g) =~= t.filter(q).map_values(g).push(g(n - 1)));
    }
}

/// A scope that is done with a service is not waited for any more; the others are.
pub proof fn the_others_are_still_waited_for(ids: Seq<ScopeId>, id: ScopeId)
    ensures
        scopes_without(ids, id) == ids.filter(|x: ScopeId| x != id),
    decreases ids.len(),
{
    reveal(Seq::filter);
    if ids.len() > 0 {
        the_others_are_still_waited_for(ids.drop_last(), id);
    }
}

/// A scope that asks for a service is listed with it once, behind those that asked before.
pub proof fn users_are_listed_once<S>(es: Seq<Service<S>>, id: Identity, scope: ScopeId, i: int)
    requires
        0 <= i < es.len(),
    ensures
        used_by(es, id, scope).len() == es.len(),
        es[i].id != id ==> used_by(es, id, scope)[i] == es[i],
        es[i].id == id && es[i].consumers.contains(scope) ==> used_by(es, id, scope)[i] == es[i],
        es[i].id == id && !es[i].consumers.contains(scope) ==> used_by(es, id, scope)[i] == (Service {
            consumers: es[i].consumers.push(scope),
            ..es[i]
        }),
        used_by(used_by(es, id, scope), id, scope) == used_by(es, id, scope),
{
    let us = used_by(es, id, scope);
    assert forall|k: int| 0 <= k < es.len() implies #[trigger] used_by(us, id, scope)[k] == us[k] by {
        if es[k].id == id && !es[k].consumers.contains(scope) {
            let cs = es[k].consumers.push(scope);
            assert(cs[es[k].consumers.len() as int] == scope);
            assert(us[k].consumers.contains(scope));
        }
    }
}

/// A service is published once under its name, and only where all that it needs is there; what is
/// refused changes nothing.
pub proof fn a_service_needs_what_it_needs<S>(
    a: ServiceRegistry<S>,
    b: ServiceRegistry<S>,
    id: Identity,
    provider: ScopeId,
    service: S,
    needed: Seq<Identity>,
    r: Result<u64, Error>,
    i: int,
    d: int,
)
    requires
        published(a, b, id, provider, service, needed, r),
        0 <= d < needed.len(),
    ensures
        0 <= i < a.services().len() && a.services()[i].id == id ==> r == Err::<u64, Error>(
            Error::Duplicate,
        ),
        (forall|k: int| 0 <= k < a.services().len() ==> (#[trigger] a.services()[k]).id != needed[d])
            ==> r is Err,
        r is Err ==> b.services() == a.services(),
        r is Ok ==> b.services() == a.services().push(b.services().last())
            && b.services().last().provider == provider && b.services().last().needs == needed
            && b.services().last().cell.held() == service && b.services().last().id == id,
{
    let es = a.services();
    if 0 <= i < es.len() && es[i].id == id {
        assert(service_at(es, id, i));
    }
    if r is Ok {
        assert(has_service(es, needed[d]));
        let k = choose|k: int| service_at(es, needed[d], k);
        assert(es[k].id == needed[d]);
        assert(b.services() =~= b.services().drop_last().push(b.services().last()));
    }
}

/// A service that is revoked is held back until those who used it are done, and cannot be asked
/// for any more.
pub proof fn a_revoked_service_waits_for_its_users<S>(b: Barrier<S>, s: Service<S>)
    requires
        is_barrier_of(b, s),
    ensures
        b.id == s.id && b.generation == s.cell.number() && b.pending == s.consumers,
        b.held is Some && !b.held->0.is_ready() && b.held->0.held() == s.cell.held()
            && b.held->0.number() == s.cell.number(),
{
}

/// A service is given to a scope that is open where it is published, under its present generation;
/// what is refused changes nothing.
pub proof fn open_scopes_get_published_services<S>(
    m: &mut ServiceRegistry<S>,
    key: ServiceKey,
    scope: ScopeId,
    consumer: ScopeHandle,
    now: Option<LeaseState>,
    r: Result<Capability, Error>,
    i: int,
)
    requires
        call_ensures(ServiceRegistry::<S>::resolve, (m, key, scope, consumer, now), r),
        services_ok(old(m).services(), old(m).next()),
        0 <= i < old(m).services().len(),
        old(m).services()[i].id == key@,
    ensures
        is_live(consumer, now) <==> r is Ok,
        now is None ==> r == Err::<Capability, Error>(Error::Closed),
        r is Err ==> final(m).services() == old(m).services(),
        r matches Ok(c) ==> c.number() == old(m).services()[i].cell.number() && c.holder() == consumer
            && final(m).services()[i].consumers.contains(scope),
{
    let es = old(m).services();
    assert(service_at(es, key@, i));
    let k = choose|k: int| service_at(es, key@, k);
    assert(service_at(es, key@, k));
    assert(es[k].id == es[i].id);
    if r is Ok {
        let cs = es[i].consumers.push(scope);
        assert(cs[es[i].consumers.len() as int] == scope);
    }
}

} // verus!
