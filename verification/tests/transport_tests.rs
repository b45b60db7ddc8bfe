use pecofence::plugin_api::{ScopeId, Token};
use pecofence::transport::{
    jitter, pauses, state_after, Actor, Attempt, ConnectionState, Incoming, Outgoing, Request,
    Route,
};

fn subscribe(local: Token) -> Request {
    Request::Subscribe {
        local,
        route: Route { owner: ScopeId(1), generation: 1 },
        query: "q".to_string(),
    }
}

#[test]
fn tombstones_resolve_cross_channel_order() {
    let mut actor = Actor::new();
    let local = Token(7);
    actor.apply_offline(Request::Unsubscribe { local });
    assert!(actor.is_cancelled(local));
    actor.apply_offline(subscribe(local));
    assert!(!actor.has_local(local));
    assert_eq!(actor.active_queries(), 0);
    assert_eq!(actor.cancelled_tokens(), 0);

    actor.apply_offline(subscribe(local));
    assert!(actor.has_local(local));
    assert_eq!(actor.active_queries(), 1);
    actor.apply_offline(Request::Unsubscribe { local });
    assert!(!actor.has_local(local));
    assert_eq!(actor.active_queries(), 0);
    assert_eq!(actor.cancelled_tokens(), 0);
}

#[test]
fn tombstone_overflow_clears_and_continues() {
    let mut actor = Actor::new();
    for id in 1..=4096 {
        actor.apply_offline(Request::Unsubscribe { local: Token(id) });
    }
    assert_eq!(actor.cancelled_tokens(), 4096);
    actor.apply_offline(Request::Unsubscribe { local: Token(4097) });
    assert_eq!(actor.cancelled_tokens(), 0);
    actor.apply_offline(Request::Unsubscribe { local: Token(4098) });
    actor.apply_offline(subscribe(Token(4098)));
    assert!(!actor.has_local(Token(4098)));
    actor.apply_offline(subscribe(Token(4099)));
    assert!(actor.has_local(Token(4099)));
}

#[test]
fn one_subscription_serves_all_who_ask_the_same() {
    let mut actor = Actor::new();
    assert!(!actor.has_met());
    assert!(actor.greeted(1).is_empty());
    assert!(actor.has_met());
    let (none, out) = actor.apply_connected(subscribe(Token(1)));
    assert!(none.is_none());
    assert!(matches!(&out, Outgoing::Subscribe(q) if q == "q"));
    actor.subscribe_sent(50, "q".to_string());
    actor.route_incoming(Incoming::Subscribed { request: Some(50), remote: 60 });
    let news = actor.route_incoming(Incoming::Snapshot { remote: Some(60), bytes: Some(vec![9]) });
    assert_eq!(news.len(), 1);
    assert_eq!(news[0].to.local, Token(1));
    let (at_once, out) = actor.apply_connected(subscribe(Token(2)));
    assert_eq!(at_once.unwrap().bytes, vec![9]);
    assert!(matches!(out, Outgoing::Nothing));
    let (_, out) = actor.apply_connected(Request::Unsubscribe { local: Token(1) });
    assert!(matches!(out, Outgoing::Nothing));
    let (_, out) = actor.apply_connected(Request::Unsubscribe { local: Token(2) });
    assert!(matches!(out, Outgoing::Unsubscribe(60)));
    assert_eq!(actor.active_queries(), 0);
}

#[test]
fn a_lost_session_is_asked_for_again() {
    let mut actor = Actor::new();
    actor.apply_offline(subscribe(Token(1)));
    assert_eq!(actor.greeted(1), vec!["q".to_string()]);
    actor.subscribe_sent(50, "q".to_string());
    actor.route_incoming(Incoming::Subscribed { request: Some(50), remote: 60 });
    actor.reset_remote();
    let news = actor.route_incoming(Incoming::Snapshot { remote: Some(60), bytes: Some(vec![9]) });
    assert!(news.is_empty());
    assert_eq!(actor.greeted(2), vec!["q".to_string()]);
    assert!(actor.unsubscribe_local(Token(1)).is_none());
}

#[test]
fn states_have_codes() {
    for s in [
        ConnectionState::Connecting,
        ConnectionState::Connected,
        ConnectionState::Reconnecting,
        ConnectionState::Disconnected,
    ] {
        assert_eq!(ConnectionState::of(s.code()), s);
    }
    assert_eq!(ConnectionState::of(200), ConnectionState::Disconnected);
    assert_eq!(state_after(Attempt::Failed, false), ConnectionState::Connecting);
    assert_eq!(state_after(Attempt::Failed, true), ConnectionState::Reconnecting);
    assert_eq!(state_after(Attempt::Ended, false), ConnectionState::Reconnecting);
}

#[test]
fn pauses_double_up_to_a_limit() {
    let (wait, next) = pauses(Attempt::Failed, 500);
    assert_eq!((wait, next), (500, 1000));
    let (_, next) = pauses(Attempt::Failed, 15_000);
    assert_eq!(next, 15_000);
    let (wait, _) = pauses(Attempt::Ended, 15_000);
    assert_eq!(wait, 500);
    assert_eq!(jitter(1000, 0), 800);
    assert_eq!(jitter(1000, 40), 1200);
    assert_eq!(jitter(1000, 41), 800);
}
