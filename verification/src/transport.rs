//! The connection to the project service: who subscribed to what, what is still to be said to the
//! service, and who gets what it says.

use crate::plugin_api::{ScopeId, Token};
use std::collections::{HashMap, HashSet};
use vstd::prelude::*;

verus! {

/// How many requests wait at most.
pub const DATA_CAPACITY: usize = 64;

/// How many subscriptions are remembered that were cancelled before they arrived.
pub const TOMBSTONES: usize = 4096;

/// The first pause before connecting again, in milliseconds.
pub const FIRST_DELAY_MS: u64 = 500;

/// The longest pause before connecting again, in milliseconds.
pub const LONGEST_DELAY_MS: u64 = 15_000;

#[derive(Clone, Copy, Debug, PartialEq, Eq, Structural)]
pub enum ConnectionState {
    Connecting,
    Connected,
    Reconnecting,
    Disconnected,
}

impl ConnectionState {
    /// The state as a number.
    pub fn code(self) -> (r: u8)
        ensures
            r == state_code(self),
    {
        match self {
            ConnectionState::Connecting => 0,
            ConnectionState::Connected => 1,
            ConnectionState::Reconnecting => 2,
            ConnectionState::Disconnected => 3,
        }
    }

    /// The state of a number.
    pub fn of(code: u8) -> (r: Self)
        ensures
            code < 3 ==> state_code(r) == code,
            code >= 3 ==> r == ConnectionState::Disconnected,
    {
        match code {
            0 => ConnectionState::Connecting,
            1 => ConnectionState::Connected,
            2 => ConnectionState::Reconnecting,
            _ => ConnectionState::Disconnected,
        }
    }
}

pub open spec fn state_code(s: ConnectionState) -> u8 {
    match s {
        ConnectionState::Connecting => 0,
        ConnectionState::Connected => 1,
        ConnectionState::Reconnecting => 2,
        ConnectionState::Disconnected => 3,
    }
}

// ---- connecting again ---------------------------------------------------------------------

/// What became of trying to connect.
#[derive(Clone, Copy, Debug, PartialEq, Eq, Structural)]
pub enum Attempt {
    /// There was a connection, and it ended.
    Ended,
    /// There was none.
    Failed,
}

/// The pause after the next one.
pub open spec fn longer(delay: u64) -> int {
    if delay * 2 < LONGEST_DELAY_MS {
        delay * 2
    } else {
        LONGEST_DELAY_MS as int
    }
}

/// The state that an attempt leaves: where the service was met before, it is connected again.
pub fn state_after(attempt: Attempt, met: bool) -> (r: ConnectionState)
    ensures
        r == if attempt == Attempt::Ended || met {
            ConnectionState::Reconnecting
        } else {
            ConnectionState::Connecting
        },
{
    if attempt == Attempt::Ended || met {
        ConnectionState::Reconnecting
    } else {
        ConnectionState::Connecting
    }
}

/// The pause after an attempt, and the one after that: they grow as long as there is no connection.
pub fn pauses(attempt: Attempt, delay: u64) -> (r: (u64, u64))
    requires
        delay <= LONGEST_DELAY_MS,
    ensures
        r.0 == if attempt == Attempt::Ended {
            FIRST_DELAY_MS
        } else {
            delay
        },
        r.1 == longer(r.0),
        r.1 <= LONGEST_DELAY_MS,
{
    let now: u64 = if attempt == Attempt::Ended {
        FIRST_DELAY_MS
    } else {
        delay
    };
    let next: u64 = if now * 2 < LONGEST_DELAY_MS {
        now * 2
    } else {
        LONGEST_DELAY_MS
    };
    (now, next)
}

/// A pause with some chance in it: 80 to 120 percent of `delay`, as the clock's fraction of a
/// second has it.
pub fn jitter(delay: u64, nanos: u32) -> (r: u64)
    requires
        delay <= LONGEST_DELAY_MS,
    ensures
        r == delay * (80 + nanos % 41) / 100,
        delay * 80 / 100 <= r <= delay * 120 / 100,
{
    let percent: u64 = 80 + (nanos % 41) as u64;
    proof {
        assert(delay * percent <= 15_000 * 120) by (nonlinear_arith)
            requires
                delay <= 15_000,
                percent <= 120,
        ;
        assert(delay * 80 <= delay * percent <= delay * 120) by (nonlinear_arith)
            requires
                80 <= percent <= 120,
        ;
    }
    delay * percent / 100
}

// ---- subscriptions ------------------------------------------------------------------------

/// Who a subscription belongs to.
#[derive(Clone, Copy, Debug, PartialEq, Eq, Structural)]
pub struct Route {
    pub owner: ScopeId,
    pub generation: u64,
}

#[derive(Clone, Copy, Debug, PartialEq, Eq, Structural)]
pub struct RouteEntry {
    pub local: Token,
    pub route: Route,
}

/// A query that someone subscribed to, as text that is the same for the same query.
struct ActiveQuery {
    query: String,
    routes: Vec<RouteEntry>,
    remote: Option<u128>,
    latest: Option<Vec<u8>>,
}

/// The model of a query that someone subscribed to.
#[verifier::ext_equal]
pub struct Active {
    pub query: Seq<char>,
    /// Those who subscribed.
    pub routes: Seq<RouteEntry>,
    /// The service's own number for it.
    pub remote: Option<u128>,
    /// What the service said last.
    pub latest: Option<Seq<u8>>,
}

impl View for ActiveQuery {
    type V = Active;

    closed spec fn view(&self) -> Active {
        Active {
            query: self.query@,
            routes: self.routes@,
            remote: self.remote,
            latest: bytes_of(self.latest),
        }
    }
}

pub open spec fn bytes_of(b: Option<Vec<u8>>) -> Option<Seq<u8>> {
    match b {
        Some(v) => Some(v@),
        None => None,
    }
}

/// What panels ask of the connection.
#[derive(Debug, PartialEq, Eq)]
pub enum Request {
    Subscribe { local: Token, route: Route, query: String },
    Unsubscribe { local: Token },
    /// Something for the service from one who subscribed.
    Send { local: Token, payload: Vec<u8> },
}

/// Bytes for one who subscribed.
#[derive(Debug, PartialEq, Eq)]
pub struct Delivery {
    pub to: RouteEntry,
    pub bytes: Vec<u8>,
}

/// What is to be said to the service.
#[derive(Debug, PartialEq, Eq)]
pub enum Outgoing {
    Nothing,
    Subscribe(String),
    Unsubscribe(u128),
    /// Pass this on, under the present session and a new number.
    Forward(Vec<u8>),
}

/// What the service said.
#[allow(inconsistent_fields)]
#[derive(Debug, PartialEq, Eq)]
pub enum Incoming {
    /// It took a subscription in, under its own number.
    Subscribed { request: Option<u128>, remote: u128 },
    /// An operation is done; everyone gets the bytes. None where they could not be written.
    Completed { bytes: Option<Vec<u8>> },
    /// News on a subscription.
    Snapshot { remote: Option<u128>, bytes: Option<Vec<u8>> },
    Other,
}

/// The subscriptions, on this side and on the side of the service.
pub struct Actor {
    active: Vec<ActiveQuery>,
    local: HashMap<u64, String>,
    cancelled: HashSet<u64>,
    remote: HashMap<u128, String>,
    pending: HashMap<u128, String>,
    session: Option<u128>,
}

/// The model of an [`Actor`].
#[verifier::ext_equal]
pub struct Subscriptions {
    /// The queries that someone subscribed to.
    pub active: Seq<Active>,
    /// The query that each token subscribed to.
    pub local: Map<u64, Seq<char>>,
    /// Tokens that were cancelled before their subscription arrived.
    pub cancelled: Set<u64>,
    /// The query of each number of the service.
    pub remote: Map<u128, Seq<char>>,
    /// The queries that were sent to the service and are not taken in yet.
    pub pending: Map<u128, Seq<char>>,
    /// The session of the service that was met last.
    pub session: Option<u128>,
}

pub open spec fn texts_by<K>(m: Map<K, String>) -> Map<K, Seq<char>> {
    m.map_values(|s: String| s@)
}

impl View for Actor {
    type V = Subscriptions;

    closed spec fn view(&self) -> Subscriptions {
        Subscriptions {
            active: Seq::new(self.active.len() as nat, |i: int| self.active@[i]@),
            local: texts_by(self.local@),
            cancelled: self.cancelled@,
            remote: texts_by(self.remote@),
            pending: texts_by(self.pending@),
            session: self.session,
        }
    }
}

pub open spec fn active_at(active: Seq<Active>, query: Seq<char>, i: int) -> bool {
    0 <= i < active.len() && active[i].query == query
}

pub open spec fn is_active(active: Seq<Active>, query: Seq<char>) -> bool {
    exists|i: int| active_at(active, query, i)
}

/// No query is listed twice, and cancelled tokens are not too many.
pub open spec fn subscriptions_ok(m: Subscriptions) -> bool {
    &&& forall|i: int, j: int|
        0 <= i < m.active.len() && 0 <= j < m.active.len() && (#[trigger] m.active[i]).query == (
        #[trigger] m.active[j]).query ==> i == j
    &&& m.cancelled.finite()
    &&& m.cancelled.len() <= TOMBSTONES
}

/// The routes without those of a token.
pub open spec fn routes_without(rs: Seq<RouteEntry>, local: Token) -> Seq<RouteEntry>
    decreases rs.len(),
{
    if rs.len() == 0 {
        rs
    } else if rs.last().local == local {
        routes_without(rs.drop_last(), local)
    } else {
        routes_without(rs.drop_last(), local).push(rs.last())
    }
}

/// The routes with one for the token, in place of any it had.
pub open spec fn routes_with(rs: Seq<RouteEntry>, local: Token, route: Route) -> Seq<RouteEntry> {
    routes_without(rs, local).push(RouteEntry { local, route })
}

/// The queries once a token subscribed to one.
pub open spec fn active_with(active: Seq<Active>, query: Seq<char>, local: Token, route: Route) -> Seq<
    Active,
> {
    if is_active(active, query) {
        Seq::new(
            active.len(),
            |i: int|
                if active[i].query == query {
                    Active { routes: routes_with(active[i].routes, local, route), ..active[i] }
                } else {
                    active[i]
                },
        )
    } else {
        active.push(
            Active {
                query,
                routes: seq![RouteEntry { local, route }],
                remote: None,
                latest: None,
            },
        )
    }
}

/// The queries without `query`.
pub open spec fn active_without(active: Seq<Active>, query: Seq<char>) -> Seq<Active>
    decreases active.len(),
{
    if active.len() == 0 {
        active
    } else if active.last().query == query {
        active_without(active.drop_last(), query)
    } else {
        active_without(active.drop_last(), query).push(active.last())
    }
}

/// A token subscribed.
pub open spec fn subscribed(m: Subscriptions, local: Token, route: Route, query: Seq<char>) -> Subscriptions {
    if m.cancelled.contains(local.0) {
        Subscriptions { cancelled: m.cancelled.remove(local.0), ..m }
    } else {
        Subscriptions {
            local: m.local.insert(local.0, query),
            active: active_with(m.active, query, local, route),
            ..m
        }
    }
}

/// The query that a token subscribed to, where it is listed.
pub open spec fn listed(m: Subscriptions, local: Token) -> Option<Active> {
    if m.local.contains_key(local.0) && is_active(m.active, m.local[local.0]) {
        Some(m.active[choose|i: int| active_at(m.active, m.local[local.0], i)])
    } else {
        None
    }
}

/// Nobody but the token subscribed to its query.
pub open spec fn is_last(m: Subscriptions, local: Token) -> bool {
    listed(m, local) matches Some(a) && routes_without(a.routes, local).len() == 0
}

/// A token cancelled its subscription. Where it was the last one, the query goes.
pub open spec fn unsubscribed(m: Subscriptions, local: Token) -> Subscriptions {
    if m.local.contains_key(local.0) {
        let query = m.local[local.0];
        Subscriptions {
            local: m.local.remove(local.0),
            active: if is_last(m, local) {
                active_without(m.active, query)
            } else {
                Seq::new(
                    m.active.len(),
                    |i: int|
                        if m.active[i].query == query {
                            Active {
                                routes: routes_without(m.active[i].routes, local),
                                ..m.active[i]
                            }
                        } else {
                            m.active[i]
                        },
                )
            },
            ..m
        }
    } else {
        Subscriptions {
            cancelled: if m.cancelled.insert(local.0).len() > TOMBSTONES {
                Set::empty()
            } else {
                m.cancelled.insert(local.0)
            },
            ..m
        }
    }
}

/// The number under which the service has the query that goes with this token.
pub open spec fn dropped_remote(m: Subscriptions, local: Token) -> Option<u128> {
    if is_last(m, local) {
        listed(m, local)->0.remote
    } else {
        None
    }
}

/// What the service said last on a query, for one who just subscribed.
pub open spec fn known_news(m: Subscriptions, local: Token, query: Seq<char>) -> Option<Seq<u8>> {
    if !m.cancelled.contains(local.0) && is_active(m.active, query) {
        m.active[choose|i: int| active_at(m.active, query, i)].latest
    } else {
        None
    }
}

proof fn lemma_active_at(active: Seq<Active>, query: Seq<char>, i: int)
    requires
        forall|i: int, j: int|
            0 <= i < active.len() && 0 <= j < active.len() && (#[trigger] active[i]).query == (
            #[trigger] active[j]).query ==> i == j,
        active_at(active, query, i),
    ensures
        is_active(active, query),
        active[choose|k: int| active_at(active, query, k)] == active[i],
        forall|j: int| 0 <= j < active.len() && (#[trigger] active[j]).query == query ==> j == i,
{
    let k = choose|k: int| active_at(active, query, k);
    assert(active_at(active, query, k));
    assert(active[k].query == active[i].query);
    assert forall|j: int| 0 <= j < active.len() && (#[trigger] active[j]).query == query implies j
        == i by {
        assert(active[j].query == active[i].query);
    }
}

proof fn lemma_active_without(active: Seq<Active>, query: Seq<char>)
    requires
        forall|i: int, j: int|
            0 <= i < active.len() && 0 <= j < active.len() && (#[trigger] active[i]).query == (
            #[trigger] active[j]).query ==> i == j,
    ensures
        forall|i: int, j: int|
            0 <= i < active_without(active, query).len() && 0 <= j < active_without(
                active,
                query,
            ).len() && (#[trigger] active_without(active, query)[i]).query == (
            #[trigger] active_without(active, query)[j]).query ==> i == j,
        forall|x: int|
            0 <= x < active_without(active, query).len() ==> active.contains(
                #[trigger] active_without(active, query)[x],
            ),
        !is_active(active_without(active, query), query),
        !is_active(active, query) ==> active_without(active, query) == active,
    decreases active.len(),
{
    if active.len() > 0 {
        let front = active.drop_last();
        assert forall|i: int, j: int|
            0 <= i < front.len() && 0 <= j < front.len() && (#[trigger] front[i]).query == (
            #[trigger] front[j]).query implies i == j by {
            assert(active[i].query == active[j].query);
        }
        lemma_active_without(front, query);
        let rest = active_without(front, query);
        let out = active_without(active, query);
        assert forall|x: int| 0 <= x < out.len() implies active.contains(#[trigger] out[x]) by {
            if x < rest.len() {
                assert(rest[x] == out[x]);
                assert(front.contains(rest[x]));
                assert(active[front.index_of(rest[x])] == out[x]);
            } else {
                assert(active[active.len() - 1] == out[x]);
            }
        }
        assert forall|i: int, j: int|
            0 <= i < out.len() && 0 <= j < out.len() && (#[trigger] out[i]).query == (
            #[trigger] out[j]).query implies i == j by {
            if i < rest.len() && j == rest.len() {
                assert(front.contains(rest[i]));
                let m = front.index_of(rest[i]);
                assert(active[m].query == active[active.len() - 1].query);
            }
            if j < rest.len() && i == rest.len() {
                assert(front.contains(rest[j]));
                let m = front.index_of(rest[j]);
                assert(active[m].query == active[active.len() - 1].query);
            }
        }
        assert forall|x: int| !active_at(out, query, x) by {
            if active_at(out, query, x) {
                if x < rest.len() {
                    assert(active_at(rest, query, x));
                }
            }
        }
        if !is_active(active, query) {
            assert forall|x: int| !active_at(front, query, x) by {
                if active_at(front, query, x) {
                    assert(active_at(active, query, x));
                }
            }
            assert(!active_at(active, query, active.len() - 1));
            assert(out =~= active);
        }
    }
}

fn drop_route(rs: &mut Vec<RouteEntry>, local: Token)
    ensures
        final(rs)@ == routes_without(old(rs)@, local),
{
    let ghost all = rs@;
    let mut out: Vec<RouteEntry> = Vec::new();
    let n: usize = rs.len();
    for i in 0..n
        invariant
            n == rs.len(),
            all == rs@,
            out@ == routes_without(all.take(i as int), local),
    {
        assert(all.take(i + 1).drop_last() =~= all.take(i as int));
        if rs[i].local != local {
            out.push(rs[i]);
        }
    }
    assert(all.take(n as int) =~= all);
    *rs = out;
}

fn copy_bytes(b: &Vec<u8>) -> (r: Vec<u8>)
    ensures
        r@ == b@,
{
    let mut out: Vec<u8> = Vec::new();
    let n: usize = b.len();
    for i in 0..n
        invariant
            n == b.len(),
            out@ == b@.take(i as int),
    {
        out.push(b[i]);
        assert(out@ =~= b@.take(i + 1));
    }
    assert(b@.take(n as int) =~= b@);
    out
}

/// The same bytes for each of the routes.
pub open spec fn deliveries(ds: Seq<Delivery>, rs: Seq<RouteEntry>, bytes: Seq<u8>) -> bool {
    &&& ds.len() == rs.len()
    &&& forall|i: int|
        0 <= i < ds.len() ==> (#[trigger] ds[i]).to == rs[i] && ds[i].bytes@ == bytes
}

/// The routes of all queries, one query after the other.
pub open spec fn all_routes(active: Seq<Active>) -> Seq<RouteEntry>
    decreases active.len(),
{
    if active.len() == 0 {
        Seq::empty()
    } else {
        all_routes(active.drop_last()) + active.last().routes
    }
}

fn deliver(out: &mut Vec<Delivery>, rs: &Vec<RouteEntry>, bytes: &Vec<u8>)
    ensures
        final(out).len() == old(out).len() + rs.len(),
        forall|i: int| 0 <= i < old(out).len() ==> #[trigger] final(out)@[i] == old(out)@[i],
        forall|i: int|
            0 <= i < rs.len() ==> (#[trigger] final(out)@[old(out).len() + i]).to == rs@[i]
                && final(out)@[old(out).len() + i].bytes@ == bytes@,
{
    let n: usize = rs.len();
    let ghost base = out.len() as int;
    for i in 0..n
        invariant
            n == rs.len(),
            base == old(out).len(),
            out.len() == base + i,
            forall|j: int| 0 <= j < base ==> #[trigger] out@[j] == old(out)@[j],
            forall|j: int|
                0 <= j < i ==> (#[trigger] out@[base + j]).to == rs@[j] && out@[base + j].bytes@
                    == bytes@,
    {
        out.push(Delivery { to: rs[i], bytes: copy_bytes(bytes) });
    }
}

impl Actor {
    pub fn new() -> (r: Self)
        ensures
            subscriptions_ok(r@),
            r@ == (Subscriptions {
                active: Seq::empty(),
                local: Map::empty(),
                cancelled: Set::empty(),
                remote: Map::empty(),
                pending: Map::empty(),
                session: None,
            }),
    {
        let r = Actor {
            active: Vec::new(),
            local: HashMap::new(),
            cancelled: HashSet::new(),
            remote: HashMap::new(),
            pending: HashMap::new(),
            session: None,
        };
        proof {
            assert(r@.active =~= Seq::<Active>::empty());
            assert(r@.local =~= Map::<u64, Seq<char>>::empty());
            assert(r@.remote =~= Map::<u128, Seq<char>>::empty());
            assert(r@.pending =~= Map::<u128, Seq<char>>::empty());
        }
        r
    }

    /// Whether a token has a subscription.
    pub fn has_local(&self, local: Token) -> (r: bool)
        ensures
            r == self@.local.contains_key(local.0),
    {
        self.local.contains_key(&local.0)
    }

    /// How many queries someone subscribed to.
    pub fn active_queries(&self) -> (r: usize)
        ensures
            r == self@.active.len(),
    {
        self.active.len()
    }

    /// Whether a token was cancelled before its subscription arrived.
    pub fn is_cancelled(&self, local: Token) -> (r: bool)
        ensures
            r == self@.cancelled.contains(local.0),
    {
        self.cancelled.contains(&local.0)
    }

    /// How many tokens were cancelled before their subscriptions arrived.
    pub fn cancelled_tokens(&self) -> (r: usize)
        ensures
            r == self@.cancelled.len(),
    {
        self.cancelled.len()
    }

    /// Whether the service was met before.
    pub fn has_met(&self) -> (r: bool)
        ensures
            r == (self@.session is Some),
    {
        self.session.is_some()
    }

    fn find_active(&self, query: &String) -> (r: Option<usize>)
        ensures
            match r {
                Some(i) => active_at(self@.active, query@, i as int),
                None => !is_active(self@.active, query@),
            },
    {
        let n: usize = self.active.len();
        for i in 0..n
            invariant
                n == self.active.len(),
                forall|j: int| 0 <= j < i ==> !#[trigger] active_at(self@.active, query@, j),
        {
            if self.active[i].query == *query {
                return Some(i);
            }
        }
        None
    }

    fn discard_cancelled(&mut self, local: Token) -> (r: bool)
        requires
            subscriptions_ok(old(self)@),
        ensures
            subscriptions_ok(final(self)@),
            r == old(self)@.cancelled.contains(local.0),
            final(self)@ == (Subscriptions {
                cancelled: old(self)@.cancelled.remove(local.0),
                ..old(self)@
            }),
    {
        let r = self.cancelled.remove(&local.0);
        assert(self@.active =~= old(self)@.active);
        r
    }

    /// Takes a subscription in. Returns what the service said last on the query, where that is
    /// known, and whether the query is new, so that the service has to be asked.
    fn add(&mut self, local: Token, route: Route, query: String) -> (r: (Option<Vec<u8>>, bool))
        requires
            subscriptions_ok(old(self)@),
        ensures
            subscriptions_ok(final(self)@),
            final(self)@ == subscribed(old(self)@, local, route, query@),
            bytes_of(r.0) == known_news(old(self)@, local, query@),
            r.1 == (!old(self)@.cancelled.contains(local.0) && !is_active(
                old(self)@.active,
                query@,
            )),
    {
        let ghost m = self@;
        if self.discard_cancelled(local) {
            return (None, false);
        }
        assert(m.cancelled.remove(local.0) =~= m.cancelled);
        assert(self@ == m);
        let name = query.clone();
        match self.find_active(&query) {
            Some(i) => {
                proof {
                    lemma_active_at(m.active, query@, i as int);
                }
                drop_route(&mut self.active[i].routes, local);
                self.active[i].routes.push(RouteEntry { local, route });
                let news: Option<Vec<u8>> = match &self.active[i].latest {
                    Some(b) => Some(copy_bytes(b)),
                    None => None,
                };
                self.local.insert(local.0, name);
                proof {
                    assert(self@.active =~= active_with(m.active, query@, local, route));
                    assert(self@.local =~= m.local.insert(local.0, query@));
                    assert forall|a: int, b: int|
                        0 <= a < self@.active.len() && 0 <= b < self@.active.len() && (
                        #[trigger] self@.active[a]).query == (
                        #[trigger] self@.active[b]).query implies a == b by {
                        assert(m.active[a].query == m.active[b].query);
                    }
                }
                (news, false)
            },
            None => {
                let routes: Vec<RouteEntry> = vec![RouteEntry { local, route }];
                assert(routes@ =~= seq![RouteEntry { local, route }]);
                self.active.push(ActiveQuery { query, routes, remote: None, latest: None });
                self.local.insert(local.0, name);
                proof {
                    let new = Active {
                        query: query@,
                        routes: seq![RouteEntry { local, route }],
                        remote: None,
                        latest: None,
                    };
                    assert(self@.active =~= m.active.push(new));
                    assert(self@.local =~= m.local.insert(local.0, query@));
                    assert forall|a: int, b: int|
                        0 <= a < self@.active.len() && 0 <= b < self@.active.len() && (
                        #[trigger] self@.active[a]).query == (
                        #[trigger] self@.active[b]).query implies a == b by {
                        if a < m.active.len() && b == m.active.len() {
                            assert(active_at(m.active, query@, a));
                        }
                        if b < m.active.len() && a == m.active.len() {
                            assert(active_at(m.active, query@, b));
                        }
                    }
                }
                (None, true)
            },
        }
    }

    fn drop_active(&mut self, query: &String)
        requires
            subscriptions_ok(old(self)@),
        ensures
            subscriptions_ok(final(self)@),
            final(self)@ == (Subscriptions {
                active: active_without(old(self)@.active, query@),
                ..old(self)@
            }),
    {
        let ghost all = self@.active;
        let mut rest: Vec<ActiveQuery> = Vec::new();
        std::mem::swap(&mut rest, &mut self.active);
        let ghost list = rest@;
        let n: usize = rest.len();
        proof {
            assert(self@.active =~= Seq::<Active>::empty());
            assert(list.skip(0) =~= list);
            assert(all.take(0) =~= Seq::<Active>::empty());
        }
        for i in 0..n
            invariant
                n == list.len(),
                n == all.len(),
                rest@ == list.skip(i as int),
                forall|j: int| 0 <= j < n ==> #[trigger] all[j] == list[j]@,
                self@ == (Subscriptions {
                    active: active_without(all.take(i as int), query@),
                    ..old(self)@
                }),
        {
            let ghost before = self@.active;
            let e = rest.remove(0);
            proof {
                assert(e == list[i as int]);
                assert(rest@ =~= list.skip(i + 1));
                assert(all.take(i + 1).drop_last() =~= all.take(i as int));
                assert(all.take(i + 1).last() == all[i as int]);
            }
            if e.query != *query {
                self.active.push(e);
                assert(self@.active =~= before.push(all[i as int]));
            }
        }
        proof {
            assert(all.take(n as int) =~= all);
            lemma_active_without(all, query@);
        }
    }

    /// Cancels a subscription. A token whose subscription has not arrived yet is remembered, so
    /// that it is passed over when it does; where too many are, all of them are forgotten. Returns
    /// the service's number for a query that nobody is subscribed to any more.
    pub fn unsubscribe_local(&mut self, local: Token) -> (r: Option<u128>)
        requires
            subscriptions_ok(old(self)@),
        ensures
            subscriptions_ok(final(self)@),
            final(self)@ == unsubscribed(old(self)@, local),
            r == dropped_remote(old(self)@, local),
    {
        let ghost m = self@;
        let query: String = match self.local.remove(&local.0) {
            Some(q) => q,
            None => {
                assert(self@.local =~= m.local);
                self.cancelled.insert(local.0);
                if self.cancelled.len() > TOMBSTONES {
                    self.cancelled.clear();
                }
                assert(self@.active =~= m.active);
                return None;
            },
        };
        assert(query@ == m.local[local.0]);
        assert(self@.local =~= m.local.remove(local.0));
        assert(self@.active =~= m.active);
        match self.find_active(&query) {
            Some(i) => {
                proof {
                    lemma_active_at(m.active, query@, i as int);
                }
                drop_route(&mut self.active[i].routes, local);
                let ghost mid = self@;
                proof {
                    assert forall|a: int, b: int|
                        0 <= a < mid.active.len() && 0 <= b < mid.active.len() && (
                        #[trigger] mid.active[a]).query == (
                        #[trigger] mid.active[b]).query implies a == b by {
                        assert(m.active[a].query == m.active[b].query);
                    }
                }
                if self.active[i].routes.len() == 0 {
                    let remote: Option<u128> = self.active[i].remote;
                    self.drop_active(&query);
                    proof {
                        lemma_same_without(mid.active, m.active, query@);
                    }
                    remote
                } else {
                    assert(self@.active =~= unsubscribed(m, local).active);
                    None
                }
            },
            None => {
                proof {
                    assert forall|j: int| 0 <= j < m.active.len() implies (
                    #[trigger] m.active[j]).query != query@ by {
                        if m.active[j].query == query@ {
                            assert(active_at(m.active, query@, j));
                        }
                    }
                    assert(self@.active =~= unsubscribed(m, local).active);
                }
                None
            },
        }
    }

    /// Does what a panel asks while there is no connection. Returns what it gets at once.
    pub fn apply_offline(&mut self, request: Request) -> (r: Option<Delivery>)
        requires
            subscriptions_ok(old(self)@),
        ensures
            subscriptions_ok(final(self)@),
            match request {
                Request::Subscribe { local, route, query } => {
                    &&& final(self)@ == subscribed(old(self)@, local, route, query@)
                    &&& is_news(r, local, route, known_news(old(self)@, local, query@))
                },
                Request::Unsubscribe { local } => final(self)@ == unsubscribed(old(self)@, local)
                    && r is None,
                Request::Send { .. } => final(self)@ == old(self)@ && r is None,
            },
    {
        match request {
            Request::Subscribe { local, route, query } => {
                let (news, _) = self.add(local, route, query);
                match news {
                    Some(bytes) => Some(Delivery { to: RouteEntry { local, route }, bytes }),
                    None => None,
                }
            },
            Request::Unsubscribe { local } => {
                self.unsubscribe_local(local);
                None
            },
            Request::Send { .. } => None,
        }
    }

    /// Does what a panel asks while there is a connection. Returns what it gets at once, and what
    /// is to be said to the service.
    pub fn apply_connected(&mut self, request: Request) -> (r: (Option<Delivery>, Outgoing))
        requires
            subscriptions_ok(old(self)@),
        ensures
            subscriptions_ok(final(self)@),
            match request {
                Request::Subscribe { local, route, query } => {
                    let m = old(self)@;
                    &&& final(self)@ == subscribed(m, local, route, query@)
                    &&& is_news(r.0, local, route, known_news(m, local, query@))
                    &&& if !m.cancelled.contains(local.0) && !is_active(m.active, query@) {
                        r.1 matches Outgoing::Subscribe(q) && q@ == query@
                    } else {
                        r.1 is Nothing
                    }
                },
                Request::Unsubscribe { local } => {
                    let m = old(self)@;
                    let gone = dropped_remote(m, local);
                    &&& final(self)@ == (Subscriptions {
                        remote: match gone {
                            Some(n) => m.remote.remove(n),
                            None => m.remote,
                        },
                        ..unsubscribed(m, local)
                    })
                    &&& r.0 is None
                    &&& r.1 == match gone {
                        Some(n) => Outgoing::Unsubscribe(n),
                        None => Outgoing::Nothing,
                    }
                },
                Request::Send { local, payload } => {
                    &&& final(self)@ == old(self)@
                    &&& r.0 is None
                    &&& r.1 == if old(self)@.local.contains_key(local.0) {
                        Outgoing::Forward(payload)
                    } else {
                        Outgoing::Nothing
                    }
                },
            },
    {
        match request {
            Request::Subscribe { local, route, query } => {
                let name = query.clone();
                let (news, new) = self.add(local, route, query);
                let now = match news {
                    Some(bytes) => Some(Delivery { to: RouteEntry { local, route }, bytes }),
                    None => None,
                };
                if new {
                    (now, Outgoing::Subscribe(name))
                } else {
                    (now, Outgoing::Nothing)
                }
            },
            Request::Unsubscribe { local } => {
                let gone: Option<u128> = self.unsubscribe_local(local);
                let ghost mid = self@;
                match gone {
                    Some(n) => {
                        self.remote.remove(&n);
                        proof {
                            assert(self@.remote =~= mid.remote.remove(n));
                            assert(self@.active =~= mid.active);
                        }
                        (None, Outgoing::Unsubscribe(n))
                    },
                    None => (None, Outgoing::Nothing),
                }
            },
            Request::Send { local, payload } => if self.local.contains_key(&local.0) {
                (None, Outgoing::Forward(payload))
            } else {
                (None, Outgoing::Nothing)
            },
        }
    }

    /// A query was sent to the service, under this number.
    pub fn subscribe_sent(&mut self, request: u128, query: String)
        requires
            subscriptions_ok(old(self)@),
        ensures
            subscriptions_ok(final(self)@),
            final(self)@ == (Subscriptions {
                pending: old(self)@.pending.insert(request, query@),
                ..old(self)@
            }),
    {
        self.pending.insert(request, query);
        assert(self@.pending =~= old(self)@.pending.insert(request, query@));
        assert(self@.active =~= old(self)@.active);
    }

    /// Forgets what the service knows: the connection is new, or gone.
    pub fn reset_remote(&mut self)
        requires
            subscriptions_ok(old(self)@),
        ensures
            subscriptions_ok(final(self)@),
            final(self)@ == forgotten(old(self)@),
    {
        let ghost m = self@;
        self.remote.clear();
        self.pending.clear();
        let n: usize = self.active.len();
        for i in 0..n
            invariant
                n == self.active.len(),
                n == m.active.len(),
                self@ == (Subscriptions {
                    active: self@.active,
                    remote: Map::empty(),
                    pending: Map::empty(),
                    ..m
                }),
                forall|j: int|
                    0 <= j < i ==> #[trigger] self@.active[j] == (Active {
                        remote: None,
                        ..m.active[j]
                    }),
                forall|j: int| i <= j < n ==> #[trigger] self@.active[j] == m.active[j],
        {
            let ghost before = self@.active;
            self.active[i].remote = None;
            assert(self@.active =~= before.update(
                i as int,
                Active { remote: None, ..before[i as int] },
            ));
        }
        proof {
            assert(self@.active =~= forgotten(m).active);
            assert forall|a: int, b: int|
                0 <= a < self@.active.len() && 0 <= b < self@.active.len() && (
                #[trigger] self@.active[a]).query == (#[trigger] self@.active[b]).query implies a
                == b by {
                assert(m.active[a].query == m.active[b].query);
            }
        }
    }

    /// The service said who it is. Where it is another one than before, what it said counts for
    /// nothing any more. Returns the queries to subscribe to.
    pub fn greeted(&mut self, session: u128) -> (r: Vec<String>)
        requires
            subscriptions_ok(old(self)@),
        ensures
            subscriptions_ok(final(self)@),
            final(self)@ == greeted_by(old(self)@, session),
            r.len() == old(self)@.active.len(),
            forall|i: int| 0 <= i < r.len() ==> (#[trigger] r@[i])@ == old(self)@.active[i].query,
    {
        let ghost m = self@;
        let changed: bool = match self.session {
            Some(s) => s != session,
            None => true,
        };
        self.session = Some(session);
        assert(self@.active =~= m.active);
        self.reset_remote();
        let ghost mid = self@;
        let mut out: Vec<String> = Vec::new();
        let n: usize = self.active.len();
        for i in 0..n
            invariant
                n == self.active.len(),
                n == mid.active.len(),
                mid.active.len() == m.active.len(),
                forall|j: int|
                    0 <= j < n ==> #[trigger] mid.active[j] == (Active {
                        remote: None,
                        ..m.active[j]
                    }),
                self@ == (Subscriptions { active: self@.active, ..mid }),
                out.len() == i,
                forall|j: int| 0 <= j < i ==> (#[trigger] out@[j])@ == m.active[j].query,
                forall|j: int|
                    0 <= j < i ==> #[trigger] self@.active[j] == (if changed {
                        Active { latest: None, ..mid.active[j] }
                    } else {
                        mid.active[j]
                    }),
                forall|j: int| i <= j < n ==> #[trigger] self@.active[j] == mid.active[j],
        {
            assert(self@.active[i as int] == mid.active[i as int]);
            let ghost before = self@.active;
            out.push(self.active[i].query.clone());
            if changed {
                self.active[i].latest = None;
                assert(self@.active =~= before.update(
                    i as int,
                    Active { latest: None, ..before[i as int] },
                ));
            }
        }
        proof {
            assert(self@.active =~= greeted_by(m, session).active);
            assert forall|a: int, b: int|
                0 <= a < self@.active.len() && 0 <= b < self@.active.len() && (
                #[trigger] self@.active[a]).query == (#[trigger] self@.active[b]).query implies a
                == b by {
                assert(m.active[a].query == m.active[b].query);
            }
        }
        out
    }

    /// Takes in what the service said. Returns who gets what.
    pub fn route_incoming(&mut self, incoming: Incoming) -> (r: Vec<Delivery>)
        requires
            subscriptions_ok(old(self)@),
        ensures
            subscriptions_ok(final(self)@),
            match incoming {
                Incoming::Subscribed { request, remote } => {
                    &&& final(self)@ == acknowledged(old(self)@, request, remote)
                    &&& r@ == Seq::<Delivery>::empty()
                },
                Incoming::Completed { bytes } => {
                    &&& final(self)@ == old(self)@
                    &&& match bytes {
                        Some(b) => deliveries(r@, all_routes(old(self)@.active), b@),
                        None => r@ == Seq::<Delivery>::empty(),
                    }
                },
                Incoming::Snapshot { remote, bytes } => {
                    let m = old(self)@;
                    match news_for(m, remote, bytes_of(bytes)) {
                        Some(i) => {
                            &&& 0 <= i < m.active.len()
                            &&& final(self)@ == (Subscriptions {
                                active: m.active.update(
                                    i,
                                    Active { latest: bytes_of(bytes), ..m.active[i] },
                                ),
                                ..m
                            })
                            &&& deliveries(r@, m.active[i].routes, bytes_of(bytes)->0)
                        },
                        None => final(self)@ == m && r@ == Seq::<Delivery>::empty(),
                    }
                },
                Incoming::Other => final(self)@ == old(self)@ && r@ == Seq::<Delivery>::empty(),
            },
    {
        match incoming {
            Incoming::Subscribed { request, remote } => {
                self.acknowledge(request, remote);
                Vec::new()
            },
            Incoming::Completed { bytes } => match bytes {
                Some(b) => self.to_everyone(&b),
                None => Vec::new(),
            },
            Incoming::Snapshot { remote, bytes } => match (remote, bytes) {
                (Some(n), Some(b)) => self.to_subscribers(n, b),
                _ => Vec::new(),
            },
            Incoming::Other => Vec::new(),
        }
    }

    fn acknowledge(&mut self, request: Option<u128>, remote: u128)
        requires
            subscriptions_ok(old(self)@),
        ensures
            subscriptions_ok(final(self)@),
            final(self)@ == acknowledged(old(self)@, request, remote),
    {
        let ghost m = self@;
        let id: u128 = match request {
            Some(id) => id,
            None => {
                return ;
            },
        };
        let query: String = match self.pending.remove(&id) {
            Some(q) => q,
            None => {
                assert(self@.pending =~= m.pending);
                assert(self@.active =~= m.active);
                return ;
            },
        };
        assert(query@ == m.pending[id]);
        assert(self@.pending =~= m.pending.remove(id));
        let name = query.clone();
        self.remote.insert(remote, name);
        assert(self@.remote =~= m.remote.insert(remote, query@));
        assert(self@.active =~= m.active);
        match self.find_active(&query) {
            Some(i) => {
                proof {
                    lemma_active_at(m.active, query@, i as int);
                }
                self.active[i].remote = Some(remote);
            },
            None => {},
        }
        proof {
            assert(self@.active =~= acknowledged(m, request, remote).active) by {
                assert forall|j: int| 0 <= j < m.active.len() && (#[trigger] m.active[j]).query
                    == query@ implies is_active(m.active, query@) by {
                    assert(active_at(m.active, query@, j));
                }
            }
            assert forall|a: int, b: int|
                0 <= a < self@.active.len() && 0 <= b < self@.active.len() && (
                #[trigger] self@.active[a]).query == (#[trigger] self@.active[b]).query implies a
                == b by {
                assert(m.active[a].query == m.active[b].query);
            }
        }
    }

    fn to_everyone(&self, bytes: &Vec<u8>) -> (r: Vec<Delivery>)
        ensures
            deliveries(r@, all_routes(self@.active), bytes@),
    {
        let mut out: Vec<Delivery> = Vec::new();
        let n: usize = self.active.len();
        let ghost active = self@.active;
        assert(active.take(0) =~= Seq::<Active>::empty());
        for i in 0..n
            invariant
                n == self.active.len(),
                active == self@.active,
                deliveries(out@, all_routes(active.take(i as int)), bytes@),
        {
            let ghost before = out@;
            assert(active.take(i + 1).drop_last() =~= active.take(i as int));
            assert(active.take(i + 1).last() == self.active@[i as int]@);
            deliver(&mut out, &self.active[i].routes, bytes);
            proof {
                let all = all_routes(active.take(i + 1));
                assert forall|j: int| 0 <= j < out.len() implies (#[trigger] out@[j]).to == all[j]
                    && out@[j].bytes@ == bytes@ by {
                    if j < before.len() {
                        assert(out@[j] == before[j]);
                    } else {
                        let k = j - before.len();
                        assert(out@[before.len() + k].to == self.active@[i as int].routes@[k]);
                    }
                }
            }
        }
        assert(active.take(n as int) =~= active);
        out
    }

    fn to_subscribers(&mut self, remote: u128, bytes: Vec<u8>) -> (r: Vec<Delivery>)
        requires
            subscriptions_ok(old(self)@),
        ensures
            subscriptions_ok(final(self)@),
            ({
                let m = old(self)@;
                match news_for(m, Some(remote), Some(bytes@)) {
                    Some(i) => {
                        &&& 0 <= i < m.active.len()
                        &&& final(self)@ == (Subscriptions {
                            active: m.active.update(
                                i,
                                Active { latest: Some(bytes@), ..m.active[i] },
                            ),
                            ..m
                        })
                        &&& deliveries(r@, m.active[i].routes, bytes@)
                    },
                    None => final(self)@ == m && r@ == Seq::<Delivery>::empty(),
                }
            }),
    {
        let ghost m = self@;
        let query: String = match self.remote.get(&remote) {
            Some(q) => q.clone(),
            None => {
                return Vec::new();
            },
        };
        assert(query@ == m.remote[remote]);
        match self.find_active(&query) {
            Some(i) => {
                proof {
                    lemma_active_at(m.active, query@, i as int);
                }
                let mut out: Vec<Delivery> = Vec::new();
                deliver(&mut out, &self.active[i].routes, &bytes);
                proof {
                    assert forall|j: int| 0 <= j < out.len() implies (#[trigger] out@[j]).to
                        == m.active[i as int].routes[j] && out@[j].bytes@ == bytes@ by {
                        assert(out@[0 + j].to == self.active@[i as int].routes@[j]);
                    }
                }
                self.active[i].latest = Some(bytes);
                proof {
                    assert(self@.active =~= m.active.update(
                        i as int,
                        Active { latest: Some(bytes@), ..m.active[i as int] },
                    ));
                    assert forall|a: int, b: int|
                        0 <= a < self@.active.len() && 0 <= b < self@.active.len() && (
                        #[trigger] self@.active[a]).query == (
                        #[trigger] self@.active[b]).query implies a == b by {
                        assert(m.active[a].query == m.active[b].query);
                    }
                }
                out
            },
            None => Vec::new(),
        }
    }
}

/// One who subscribed gets what is known of the query.
pub open spec fn is_news(
    d: Option<Delivery>,
    local: Token,
    route: Route,
    news: Option<Seq<u8>>,
) -> bool {
    match news {
        Some(b) => d matches Some(x) && x.to == (RouteEntry { local, route }) && x.bytes@ == b,
        None => d is None,
    }
}

/// What the service knows was forgotten.
pub open spec fn forgotten(m: Subscriptions) -> Subscriptions {
    Subscriptions {
        active: Seq::new(m.active.len(), |i: int| Active { remote: None, ..m.active[i] }),
        remote: Map::empty(),
        pending: Map::empty(),
        ..m
    }
}

/// A service said who it is.
pub open spec fn greeted_by(m: Subscriptions, session: u128) -> Subscriptions {
    Subscriptions {
        active: Seq::new(
            m.active.len(),
            |i: int|
                if m.session == Some(session) {
                    Active { remote: None, ..m.active[i] }
                } else {
                    Active { remote: None, latest: None, ..m.active[i] }
                },
        ),
        session: Some(session),
        ..forgotten(m)
    }
}

/// The service took a subscription in.
pub open spec fn acknowledged(m: Subscriptions, request: Option<u128>, remote: u128) -> Subscriptions {
    match request {
        Some(id) if m.pending.contains_key(id) => {
            let query = m.pending[id];
            Subscriptions {
                pending: m.pending.remove(id),
                remote: m.remote.insert(remote, query),
                active: Seq::new(
                    m.active.len(),
                    |i: int|
                        if m.active[i].query == query {
                            Active { remote: Some(remote), ..m.active[i] }
                        } else {
                            m.active[i]
                        },
                ),
                ..m
            }
        },
        _ => m,
    }
}

/// Where the query stands that there is news on.
pub open spec fn news_for(m: Subscriptions, remote: Option<u128>, bytes: Option<Seq<u8>>) -> Option<int> {
    match (remote, bytes) {
        (Some(n), Some(_)) if m.remote.contains_key(n) && is_active(m.active, m.remote[n]) => Some(
            choose|i: int| active_at(m.active, m.remote[n], i),
        ),
        _ => None,
    }
}

proof fn lemma_same_without(a: Seq<Active>, b: Seq<Active>, query: Seq<char>)
    requires
        a.len() == b.len(),
        forall|i: int|
            0 <= i < a.len() ==> (#[trigger] a[i]).query == b[i].query && (a[i].query != query
                ==> a[i] == b[i]),
    ensures
        active_without(a, query) == active_without(b, query),
    decreases a.len(),
{
    if a.len() > 0 {
        assert forall|i: int| 0 <= i < a.drop_last().len() implies (
        #[trigger] a.drop_last()[i]).query == b.drop_last()[i].query && (a.drop_last()[i].query
            != query ==> a.drop_last()[i] == b.drop_last()[i]) by {
            assert(a[i].query == b[i].query);
        }
        lemma_same_without(a.drop_last(), b.drop_last(), query);
        assert(a[a.len() - 1].query == b[a.len() - 1].query);
    }
}

// ---- laws ---------------------------------------------------------------------------------

/// A cancellation that overtakes its subscription cancels it all the same, and leaves nothing
/// behind.
pub proof fn an_overtaken_subscription_is_dropped(
    m: Subscriptions,
    local: Token,
    route: Route,
    query: Seq<char>,
)
    requires
        subscriptions_ok(m),
        !m.local.contains_key(local.0),
        !m.cancelled.contains(local.0),
        m.cancelled.len() < TOMBSTONES,
    ensures
        subscribed(unsubscribed(m, local), local, route, query) == m,
{
    assert(m.cancelled.insert(local.0).remove(local.0) =~= m.cancelled);
}

/// Cancelling a subscription to a query that nobody else has leaves things as they were before it.
pub proof fn unsubscribing_undoes_subscribing(
    m: Subscriptions,
    local: Token,
    route: Route,
    query: Seq<char>,
)
    requires
        subscriptions_ok(m),
        !m.local.contains_key(local.0),
        !m.cancelled.contains(local.0),
        !is_active(m.active, query),
    ensures
        unsubscribed(subscribed(m, local, route, query), local) == m,
        dropped_remote(subscribed(m, local, route, query), local) is None,
{
    let s = subscribed(m, local, route, query);
    let n = m.active.len() as int;
    assert(active_at(s.active, query, n));
    assert forall|a: int, b: int|
        0 <= a < s.active.len() && 0 <= b < s.active.len() && (#[trigger] s.active[a]).query == (
        #[trigger] s.active[b]).query implies a == b by {
        if a < n && b == n {
            assert(active_at(m.active, query, a));
        }
        if b < n && a == n {
            assert(active_at(m.active, query, b));
        }
    }
    lemma_active_at(s.active, query, n);
    let rs = s.active[n].routes;
    assert(rs.drop_last() =~= Seq::<RouteEntry>::empty());
    assert(routes_without(rs.drop_last(), local) =~= Seq::<RouteEntry>::empty());
    assert(routes_without(rs, local).len() == 0);
    assert(s.active.drop_last() =~= m.active);
    lemma_active_without(m.active, query);
    let u = unsubscribed(s, local);
    assert(u.active == m.active);
    assert(u.local =~= m.local);
}

/// Meeting the same service again keeps what it said; meeting another one drops it.
pub proof fn news_ends_with_its_session(m: Subscriptions, session: u128, i: int)
    requires
        0 <= i < m.active.len(),
    ensures
        m.session == Some(session) ==> greeted_by(m, session).active[i].latest
            == m.active[i].latest,
        m.session != Some(session) ==> greeted_by(m, session).active[i].latest is None,
        greeted_by(m, session).active[i].remote is None,
        greeted_by(m, session).active[i].routes == m.active[i].routes,
{
}

// ---- who is told what -------------------------------------------------------------------------

proof fn lemma_routes(rs: Seq<RouteEntry>, local: Token)
    ensures
        routes_without(rs, local) == rs.filter(|r: RouteEntry| r.local != local),
    decreases rs.len(),
{
    reveal(Seq::filter);
    if rs.len() > 0 {
        lemma_routes(rs.drop_last(), local);
    }
}

/// A subscriber is listed once with its query, behind the others.
pub proof fn a_subscriber_is_listed_last(rs: Seq<RouteEntry>, local: Token, route: Route)
    ensures
        routes_without(rs, local) == rs.filter(|r: RouteEntry| r.local != local),
        routes_with(rs, local, route) == rs.filter(|r: RouteEntry| r.local != local).push(
            RouteEntry { local, route },
        ),
{
    lemma_routes(rs, local);
}

/// A query without subscribers is dropped, and no other.
pub proof fn the_other_queries_stay(active: Seq<Active>, query: Seq<char>)
    ensures
        active_without(active, query) == active.filter(|a: Active| a.query != query),
    decreases active.len(),
{
    reveal(Seq::filter);
    if active.len() > 0 {
        the_other_queries_stay(active.drop_last(), query);
    }
}

/// One more subscriber joins the query it names, which is kept once for all of them with its
/// number and its latest news; a new query starts without either.
pub proof fn subscribers_share_a_query(
    m: Subscriptions,
    local: Token,
    route: Route,
    query: Seq<char>,
    i: int,
)
    requires
        !m.cancelled.contains(local.0),
        0 <= i < m.active.len(),
    ensures
        ({
            let n = subscribed(m, local, route, query);
            &&& n.local == m.local.insert(local.0, query)
            &&& n.remote == m.remote && n.pending == m.pending && n.session == m.session && n.cancelled
                == m.cancelled
            &&& m.active[i].query != query ==> n.active[i] == m.active[i]
            &&& m.active[i].query == query ==> n.active.len() == m.active.len() && n.active[i].remote
                == m.active[i].remote && n.active[i].latest == m.active[i].latest
                && n.active[i].routes.last() == (RouteEntry { local, route })
            &&& (forall|k: int| 0 <= k < m.active.len() ==> (#[trigger] m.active[k]).query != query)
                ==> n.active.len() == m.active.len() + 1 && n.active.last().query == query
                && n.active.last().remote is None && n.active.last().latest is None
                && n.active.last().routes == seq![RouteEntry { local, route }]
        }),
{
    if m.active[i].query == query {
        assert(active_at(m.active, query, i));
    }
    if forall|k: int| 0 <= k < m.active.len() ==> (#[trigger] m.active[k]).query != query {
        assert forall|k: int| !active_at(m.active, query, k) by {
            if active_at(m.active, query, k) {
                assert(m.active[k].query == query);
            }
        }
    }
}

/// A subscription that was cancelled before it arrived is not taken in.
pub proof fn a_cancelled_subscription_is_not_taken_in(
    m: Subscriptions,
    local: Token,
    route: Route,
    query: Seq<char>,
)
    requires
        m.cancelled.contains(local.0),
    ensures
        ({
            let n = subscribed(m, local, route, query);
            n.active == m.active && n.local == m.local && !n.cancelled.contains(local.0)
        }),
        known_news(m, local, query) is None,
{
}

proof fn lemma_active_unique(m: Subscriptions, query: Seq<char>, i: int)
    requires
        subscriptions_ok(m),
        active_at(m.active, query, i),
    ensures
        (choose|k: int| active_at(m.active, query, k)) == i,
{
    let k = choose|k: int| active_at(m.active, query, k);
    assert(active_at(m.active, query, k));
    assert(m.active[k].query == m.active[i].query);
}

/// A subscriber that leaves is taken off its query; the last one takes the query along, and the
/// service is told its number.
pub proof fn the_last_subscriber_ends_the_query(m: Subscriptions, local: Token, i: int)
    requires
        subscriptions_ok(m),
        m.local.contains_key(local.0),
        0 <= i < m.active.len(),
        m.active[i].query == m.local[local.0],
    ensures
        ({
            let n = unsubscribed(m, local);
            let left = m.active[i].routes.filter(|r: RouteEntry| r.local != local);
            &&& !n.local.contains_key(local.0)
            &&& n.cancelled == m.cancelled
            &&& left.len() == 0 ==> n.active == m.active.filter(
                |a: Active| a.query != m.local[local.0],
            ) && dropped_remote(m, local) == m.active[i].remote
            &&& left.len() > 0 ==> n.active == m.active.update(
                i,
                Active { routes: left, ..m.active[i] },
            ) && dropped_remote(m, local) is None
        }),
{
    let query = m.local[local.0];
    assert(active_at(m.active, query, i));
    lemma_active_unique(m, query, i);
    lemma_routes(m.active[i].routes, local);
    the_other_queries_stay(m.active, query);
    let left = m.active[i].routes.filter(|r: RouteEntry| r.local != local);
    if left.len() > 0 {
        assert forall|k: int| 0 <= k < m.active.len() && k != i implies (#[trigger] m.active[k]).query
            != query by {
            if m.active[k].query == query {
                assert(m.active[k].query == m.active[i].query);
            }
        }
        assert(unsubscribed(m, local).active =~= m.active.update(
            i,
            Active { routes: left, ..m.active[i] },
        ));
    }
}

/// A newcomer to a query is told at once what the service said of it last.
pub proof fn newcomers_are_told_the_latest(
    m: Subscriptions,
    local: Token,
    query: Seq<char>,
    i: int,
)
    requires
        subscriptions_ok(m),
        !m.cancelled.contains(local.0),
        0 <= i < m.active.len(),
        m.active[i].query == query,
    ensures
        known_news(m, local, query) == m.active[i].latest,
{
    assert(active_at(m.active, query, i));
    lemma_active_unique(m, query, i);
}

/// The service's answer to a subscription gives the query that was sent its number; an answer to
/// nothing that was sent changes nothing.
pub proof fn an_answer_numbers_its_query(
    m: Subscriptions,
    request: u128,
    remote: u128,
    i: int,
)
    requires
        0 <= i < m.active.len(),
    ensures
        acknowledged(m, None, remote) == m,
        !m.pending.contains_key(request) ==> acknowledged(m, Some(request), remote) == m,
        m.pending.contains_key(request) ==> {
            let n = acknowledged(m, Some(request), remote);
            &&& n.remote.contains_key(remote) && n.remote[remote] == m.pending[request]
            &&& !n.pending.contains_key(request)
            &&& n.active.len() == m.active.len()
            &&& m.active[i].query == m.pending[request] ==> n.active[i] == (Active {
                remote: Some(remote),
                ..m.active[i]
            })
            &&& m.active[i].query != m.pending[request] ==> n.active[i] == m.active[i]
            &&& n.local == m.local
        },
{
}

/// News goes to the query that the service's number stands for, and to none where the number is
/// not known.
pub proof fn news_goes_to_its_query(
    m: Subscriptions,
    remote: u128,
    bytes: Seq<u8>,
    i: int,
)
    requires
        subscriptions_ok(m),
        0 <= i < m.active.len(),
    ensures
        m.remote.contains_key(remote) && m.remote[remote] == m.active[i].query ==> news_for(
            m,
            Some(remote),
            Some(bytes),
        ) == Some(i),
        !m.remote.contains_key(remote) ==> news_for(m, Some(remote), Some(bytes)) is None,
        news_for(m, None, Some(bytes)) is None,
        news_for(m, Some(remote), None) is None,
{
    if m.remote.contains_key(remote) && m.remote[remote] == m.active[i].query {
        assert(active_at(m.active, m.remote[remote], i));
        lemma_active_unique(m, m.remote[remote], i);
    }
}

/// Everyone who subscribed to anything is told of what is done, query by query.
pub proof fn everyone_is_told_what_is_done(active: Seq<Active>, a: Active)
    ensures
        all_routes(active.push(a)) == all_routes(active) + a.routes,
        all_routes(Seq::empty()).len() == 0,
{
    assert(active.push(a).drop_last() =~= active);
}

/// The delay between attempts doubles up to fifteen seconds.
pub proof fn delays_double_up_to_fifteen_seconds(delay: u64)
    ensures
        delay < 7500 ==> longer(delay) == 2 * delay,
        delay >= 7500 ==> longer(delay) == 15_000,
{
}

/// Where a connection ends the service's numbers are forgotten and the subscriptions stay.
pub proof fn subscriptions_outlive_a_connection(m: Subscriptions, i: int)
    requires
        0 <= i < m.active.len(),
    ensures
        ({
            let n = forgotten(m);
            &&& n.active.len() == m.active.len()
            &&& n.active[i] == (Active { remote: None, ..m.active[i] })
            &&& n.local == m.local && n.cancelled == m.cancelled && n.session == m.session
            &&& forall|k: u128| !n.remote.contains_key(k) && !n.pending.contains_key(k)
        }),
{
}

/// The states of a connection are told by numbers of their own.
pub proof fn states_are_told_apart(a: ConnectionState, b: ConnectionState)
    ensures
        state_code(a) == state_code(b) ==> a == b,
        state_code(a) <= 3,
        a is Connecting <==> state_code(a) == 0,
        a is Connected <==> state_code(a) == 1,
        a is Disconnected <==> state_code(a) == 3,
{
}

/// The service hears of a query from its first subscriber and of its end from the last, and of what
/// subscribers send while they are subscribed.
pub proof fn the_service_hears_of_first_and_last(
    a: &mut Actor,
    local: Token,
    route: Route,
    query: String,
    payload: Vec<u8>,
    r: (Option<Delivery>, Outgoing),
)
    ensures
        call_ensures(Actor::apply_connected, (a, Request::Subscribe { local, route, query }), r) ==> {
            &&& is_active(old(a)@.active, query@) ==> r.1 is Nothing
            &&& old(a)@.cancelled.contains(local.0) ==> r.1 is Nothing && r.0 is None
            &&& !is_active(old(a)@.active, query@) && !old(a)@.cancelled.contains(local.0) ==> r.1
                is Subscribe && r.1->Subscribe_0@ == query@ && r.0 is None
        },
        call_ensures(Actor::apply_connected, (a, Request::Unsubscribe { local }), r) ==> r.0 is None && (
        r.1 == if dropped_remote(old(a)@, local) is Some {
            Outgoing::Unsubscribe(dropped_remote(old(a)@, local)->0)
        } else {
            Outgoing::Nothing
        }) && !final(a)@.local.contains_key(local.0),
        call_ensures(Actor::apply_connected, (a, Request::Send { local, payload }), r)
            ==> r.0 is None && final(a)@ == old(a)@ && (r.1 is Forward <==> old(
            a,
        )@.local.contains_key(local.0)) && (r.1 is Forward ==> r.1 == Outgoing::Forward(payload)),
{
}

} // verus!
