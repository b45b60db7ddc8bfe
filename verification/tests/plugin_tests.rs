use pecofence::dip::Dip;
use pecofence::kernel::{
    ActivationFailure, ActivationTransaction, DrainLedger, DrainState, EventSink, InstanceRecord,
    PanelStore, PollBudget,
};
use pecofence::model::PanelSpec;
use pecofence::panel_host::{previous, HostRecord, PanelHost, Previous, ResolveStep};
use pecofence::panel_life::PollStep;
use pecofence::panel_services::{
    check_navigation, same_tokens, theme_snapshot_for, MemoryStorage, PipeEvent, PipeState,
    ThemeHost,
};
use pecofence::plugin_api::{
    ask, Capability, Error, ExternalTarget, InstanceKey, LeaseState, MountKey, ScopeHandle, ScopeId,
    ScopeLease, ServiceCell, StopReason, Token,
};
use pecofence::scopes::{too_late, LocalScope, RuntimePhase, ScopeKind, ScopeTree};
use pecofence::services::{ServiceKey, ServiceRegistry, ServiceState};
use pecofence::startup::Look;
use pecofence::supervisor::{both, drain_step, DrainReport, DrainStep, TaskSupervisor};
use pecofence::transport::{Route, RouteEntry};
use std::cell::Cell;
use std::rc::Rc;

struct Lease;

impl ScopeLease for Lease {
    fn state(&self) -> LeaseState {
        LeaseState { id: ScopeId(1), generation: 2, open: true }
    }

    fn id(&self) -> ScopeId {
        ScopeId(1)
    }

    fn generation(&self) -> u64 {
        2
    }

    fn is_open(&self) -> bool {
        true
    }
}

struct V;

impl V {
    fn value(&self) -> u32 {
        7
    }
}

#[test]
fn capability_is_generation_bound() {
    let lease = Lease;
    let mut service = ServiceCell::new(3, V);
    let capability = Capability::new(&service, ScopeHandle::from_lease(&lease));
    assert_eq!(
        capability.with(Some(&service), Some(ask(&lease)), |value: &V| Ok(value.value())),
        Ok(7)
    );
    service.revoke();
    assert_eq!(
        capability.with(Some(&service), Some(ask(&lease)), |value: &V| Ok(value.value())),
        Err(Error::Revoked)
    );
}

#[test]
fn capabilities_end_with_their_scope() {
    let service = ServiceCell::new(3, V);
    let open = LeaseState { id: ScopeId(1), generation: 2, open: true };
    let shut = LeaseState { id: ScopeId(1), generation: 2, open: false };
    let capability = Capability::new(&service, ScopeHandle::of(open));
    let call = |now: Option<LeaseState>| {
        capability.with(Some(&service), now, |value: &V| Ok(value.value()))
    };
    assert_eq!(call(Some(open)), Ok(7));
    assert_eq!(call(Some(shut)), Err(Error::Closed));
    assert_eq!(call(None), Err(Error::Closed));
    assert_eq!(
        capability.with(None::<&ServiceCell<V>>, Some(open), |value: &V| Ok(value.value())),
        Err(Error::Revoked)
    );
    assert_eq!(capability.generation(), 3);
}

#[test]
fn errors_say_what_they_mean() {
    assert_eq!(Error::Closed.message(), "scope is closed");
    assert_eq!(Error::Revoked.message(), "capability is revoked");
    assert_eq!(Error::Invalid("a".to_string()).message(), "a");
    assert_eq!(Error::Backend("b".to_string()).message(), "b");
    assert_eq!(Error::Exhausted.message(), "generation counter exhausted");
    assert_eq!(Error::Duplicate.message(), "duplicate registration");
    assert_eq!(Error::DependencyCycle.message(), "service dependency cycle");
}

#[test]
fn effects_execute_in_reverse_registration_order() {
    let mut scope: LocalScope<u32> = LocalScope::new(ScopeId(1), 1);
    for value in 1..=3 {
        scope.defer(value).unwrap();
    }
    let mut calls = Vec::new();
    for undo in scope.begin_close() {
        calls.push(undo);
    }
    scope.end_close(vec![]);
    assert_eq!(calls, [3, 2, 1]);
    assert!(scope.begin_close().is_empty());
}

#[test]
fn failed_registration_rolls_resource_back_immediately() {
    let mut scope: LocalScope<u32> = LocalScope::new(ScopeId(1), 1);
    scope.mark_stopping();
    let mut released = false;
    let result = match scope.defer(17) {
        Ok(()) => Ok(17),
        Err(value) => {
            assert_eq!(value, 17);
            released = true;
            Err(too_late(Ok(())))
        }
    };
    assert_eq!(result, Err(Error::Closed));
    assert!(released);
}

type Effect = Box<dyn FnOnce() -> Result<(), Error>>;

/// Keeps an effect in a scope of the tree; one that comes too late is undone at once.
fn defer(tree: &mut ScopeTree<Effect>, scope: ScopeId, undo: Effect) -> Result<(), Error> {
    tree.defer(scope, undo).map_err(|undo| too_late(undo()))
}

#[test]
fn closed_scope_rejects_children_and_effects() {
    let mut tree: ScopeTree<Effect> = ScopeTree::new();
    let root = tree.root();
    let plugin = tree.create(root, ScopeKind::Provider).unwrap();
    tree.begin_stop(plugin).unwrap();
    assert_eq!(tree.create(plugin, ScopeKind::Instance), Err(Error::Closed));
    let called = Rc::new(Cell::new(false));
    let copy = called.clone();
    assert_eq!(
        defer(
            &mut tree,
            plugin,
            Box::new(move || {
                copy.set(true);
                Ok(())
            })
        ),
        Err(Error::Closed)
    );
    assert!(called.get());
}

#[test]
fn descendants_are_closed_before_any_callback() {
    let mut tree: ScopeTree<Box<dyn FnOnce(Option<LeaseState>)>> = ScopeTree::new();
    let root = tree.root();
    let plugin = tree.create(root, ScopeKind::Provider).unwrap();
    let instance = tree.create(plugin, ScopeKind::Instance).unwrap();
    let instance_handle = tree.handle(instance).unwrap();
    assert_eq!(instance_handle.check(tree.lease(instance)), Ok(instance));
    let called = Rc::new(Cell::new(0));
    let copy = called.clone();
    let callback = move |now: Option<LeaseState>| {
        assert_eq!(instance_handle.check(now), Err(Error::Closed));
        copy.set(copy.get() + 1);
    };
    assert!(tree.defer(plugin, Box::new(callback)).is_ok());
    let plan = tree.begin_stop(plugin).unwrap();
    assert_eq!(plan.order, vec![instance.0, plugin.0]);
    assert_eq!(plan.undos.len(), 1);
    for (scope, undo) in plan.undos {
        assert_eq!(scope, plugin.0);
        undo(tree.lease(instance));
    }
    assert_eq!(called.get(), 1);
    assert_eq!(tree.kind(instance), Some(ScopeKind::Instance));
    assert_eq!(tree.parent(instance), Some(plugin));
}

#[test]
fn a_scope_of_the_tree_keeps_what_it_undoes_and_destroys() {
    let mut tree: ScopeTree<u32> = ScopeTree::new();
    let root = tree.root();
    let plugin = tree.create(root, ScopeKind::Provider).unwrap();
    let instance = tree.create(plugin, ScopeKind::Instance).unwrap();
    assert_eq!(tree.local(instance).map(|l| l.phase()), Ok(RuntimePhase::Open));
    assert_eq!(tree.local(ScopeId(99)).map(|l| l.phase()), Err(Error::Closed));
    assert_eq!(tree.defer(plugin, 1), Ok(()));
    assert_eq!(tree.defer(instance, 2), Ok(()));
    assert_eq!(tree.defer(instance, 3), Ok(()));
    assert_eq!(tree.defer(ScopeId(99), 4), Err(4));
    assert_eq!(tree.defer_destroy(plugin, 5), Ok(()));
    assert_eq!(tree.defer_destroy(plugin, 6), Ok(()));
    let stop = tree.begin_stop(plugin).unwrap();
    assert_eq!(stop.undos, vec![(instance.0, 3), (instance.0, 2), (plugin.0, 1)]);
    assert_eq!(tree.defer_destroy(plugin, 7), Err(7));
    assert_eq!(tree.phase(plugin), Some(RuntimePhase::Stopping));
    tree.end_stop(&stop.order, &vec![(plugin.0, Error::Revoked), (99, Error::Closed)]);
    assert_eq!(tree.phase(plugin), Some(RuntimePhase::Draining));
    assert_eq!(tree.take_errors(plugin), vec![Error::Revoked]);
    assert_eq!(tree.take_errors(plugin), vec![]);
    let end = tree.dispose_now(plugin).unwrap();
    assert_eq!(end.undos, vec![(plugin.0, 6), (plugin.0, 5)]);
    assert_eq!(tree.remove_disposed_subtree(plugin), Ok(2));
    assert_eq!(tree.len(), 1);
}

#[test]
fn a_handle_is_of_one_scope_only() {
    let mut tree: ScopeTree<u32> = ScopeTree::new();
    let root = tree.root();
    let a = tree.create(root, ScopeKind::Provider).unwrap();
    let b = tree.create(root, ScopeKind::Provider).unwrap();
    let handle = tree.handle(a).unwrap();
    assert_eq!(handle.check(tree.lease(a)), Ok(a));
    assert_eq!(handle.check(tree.lease(b)), Err(Error::Closed));
    assert_eq!(handle.generation(tree.lease(b)), Err(Error::Closed));
    let older = ScopeHandle { id: a, generation: handle.generation + 1 };
    assert_eq!(older.check(tree.lease(a)), Err(Error::Closed));
}

#[test]
fn two_phase_stop_waits_for_supervised_tasks_before_disposal() {
    let mut tree: ScopeTree<u32> = ScopeTree::new();
    let root = tree.root();
    let instance = tree.create(root, ScopeKind::Instance).unwrap();
    let generation = tree.handle(instance).unwrap().generation(tree.lease(instance)).unwrap();
    let mut supervisor = TaskSupervisor::new();
    let token = supervisor.spawn(instance, generation).unwrap();
    tree.begin_stop(instance).unwrap();
    assert_eq!(supervisor.cancel_scope(instance), vec![token]);
    let waiting = supervisor.poll_scope(instance, &vec![]);
    assert_eq!(drain_step(waiting.report, 0, false), DrainStep::Wait(0));
    assert_ne!(tree.phase(instance), Some(RuntimePhase::Disposed));
    supervisor.complete(token, generation);
    let done = supervisor.poll_scope(instance, &vec![token]);
    let report = match drain_step(done.report, 0, false) {
        DrainStep::Done(r) => r,
        DrainStep::Wait(_) => panic!("drained"),
    };
    assert!(!report.quarantined);
    tree.finish_dispose(instance).unwrap();
    tree.end_destroy(instance, vec![]);
    assert_eq!(tree.phase(instance), Some(RuntimePhase::Disposed));
}

#[test]
fn disposed_scopes_leave_the_tree() {
    let mut tree: ScopeTree<u32> = ScopeTree::new();
    let root = tree.root();
    let a = tree.create(root, ScopeKind::Provider).unwrap();
    tree.create(a, ScopeKind::Instance).unwrap();
    assert_eq!(tree.len(), 3);
    assert!(tree.remove_disposed_subtree(a).is_err());
    tree.end_now(a).unwrap();
    assert_eq!(tree.len(), 1);
    assert_eq!(tree.phase(a), None);
    assert_eq!(tree.create(a, ScopeKind::Mount), Err(Error::Closed));
}

#[test]
fn dependency_resolution_and_revocation_barrier() {
    let tree: ScopeTree<u32> = ScopeTree::new();
    let consumer = tree.root();
    let mut registry: ServiceRegistry<u32> = ServiceRegistry::new();
    let number = || ServiceKey::new("host", "number", 1, 77);
    registry.publish(number(), ScopeId(90), 7).unwrap();
    let capability = registry
        .resolve(number(), consumer, tree.handle(consumer).unwrap(), tree.lease(consumer))
        .unwrap();
    assert_eq!(
        capability.with(registry.cell(number()), tree.lease(consumer), |s: &u32| Ok(*s)),
        Ok(7)
    );
    assert_eq!(registry.state(number()), Some(ServiceState::Ready));
    assert_eq!(registry.provider(number()), Some(ScopeId(90)));
    let mut barriers = registry.revoke(number()).unwrap();
    assert_eq!(
        capability.with(registry.cell(number()), tree.lease(consumer), |s: &u32| Ok(*s)),
        Err(Error::Revoked)
    );
    assert_eq!(barriers.len(), 1);
    assert!(!barriers[0].is_complete());
    barriers[0].acknowledge(consumer);
    assert!(barriers[0].is_complete());
}

#[test]
fn services_go_with_what_they_need() {
    let mut registry: ServiceRegistry<u32> = ServiceRegistry::new();
    let base = || ServiceKey::new("host", "base", 1, 1);
    let upper = || ServiceKey::new("host", "upper", 1, 2);
    assert_eq!(
        registry.publish_with_dependencies(upper(), ScopeId(2), 2, &vec![base().dependency()]),
        Err(Error::Revoked)
    );
    let first = registry.publish(base(), ScopeId(1), 1).unwrap();
    assert_eq!(registry.publish(base(), ScopeId(1), 1), Err(Error::Duplicate));
    let second = registry
        .publish_with_dependencies(upper(), ScopeId(2), 2, &vec![base().dependency()])
        .unwrap();
    assert!(second > first);
    let barriers = registry.revoke(base()).unwrap();
    assert_eq!(barriers.len(), 2);
    assert_eq!(registry.state(upper()), None);
    assert_eq!(registry.state(base()), None);
    assert!(registry.revoke(base()).is_err());
    assert!(registry.publish(base(), ScopeId(1), 1).unwrap() > second);
}

#[test]
fn cancellation_is_requested_and_completion_is_joined() {
    let mut supervisor = TaskSupervisor::new();
    let owner = ScopeId(4);
    let token = supervisor.spawn(owner, 9).unwrap();
    assert!(supervisor.accepts_completion(token, 9));
    assert!(!supervisor.accepts_completion(token, 8));
    assert_eq!(supervisor.cancel_scope(owner), vec![token]);
    supervisor.complete(token, 9);
    let polled = supervisor.poll_scope(owner, &vec![token]);
    assert_eq!(polled.joined, vec![token]);
    assert_eq!(
        drain_step(polled.report, 0, false),
        DrainStep::Done(DrainReport {
            joined: 1,
            pending: 0,
            native_pending: 0,
            quarantined: false
        })
    );
}

#[test]
fn deadline_quarantines_but_retains_join_handle() {
    let mut supervisor = TaskSupervisor::new();
    let token = supervisor.spawn(ScopeId(2), 1).unwrap();
    let polled = supervisor.poll_scope(ScopeId(2), &vec![]);
    let report = match drain_step(polled.report, 0, true) {
        DrainStep::Done(r) => r,
        DrainStep::Wait(_) => panic!("the time is up"),
    };
    assert!(report.quarantined);
    assert_eq!(report.pending, 1);
    supervisor.complete(token, 1);
    let polled = supervisor.poll_scope(ScopeId(2), &vec![token]);
    assert_eq!(polled.report.pending, 0);
}

#[test]
fn tokio_join_and_native_io_are_observed_before_drain() {
    let mut supervisor = TaskSupervisor::new();
    let owner = ScopeId(8);
    let task = supervisor.spawn(owner, 3).unwrap();
    let native = supervisor.register_native(owner, 3).unwrap();
    assert!(!supervisor.complete_native(native, 2));
    assert!(supervisor.complete_native(native, 3));
    assert!(!supervisor.complete_native(native, 3));
    supervisor.cancel_scope(owner);
    supervisor.complete(task, 3);
    let report = supervisor.poll_scope(owner, &vec![task]).report;
    assert_eq!(report.pending, 0);
    assert_eq!(report.native_pending, 0);
    assert!(!report.quarantined);
}

#[test]
fn incomplete_native_io_crosses_quarantine_deadline() {
    let mut supervisor = TaskSupervisor::new();
    let owner = ScopeId(9);
    let native = supervisor.register_native(owner, 4).unwrap();
    let polled = supervisor.poll_scope(owner, &vec![]);
    let report = match drain_step(polled.report, 0, true) {
        DrainStep::Done(r) => r,
        DrainStep::Wait(_) => panic!("the time is up"),
    };
    assert!(report.quarantined);
    assert_eq!(report.native_pending, 1);
    assert!(supervisor.complete_native(native, 4));
    let report = supervisor.poll_scope(owner, &vec![]).report;
    assert_eq!(
        drain_step(report, 0, false),
        DrainStep::Done(DrainReport {
            joined: 0,
            pending: 0,
            native_pending: 0,
            quarantined: false
        })
    );
}

#[test]
fn reports_add_up() {
    let a = DrainReport { joined: 1, pending: 2, native_pending: 3, quarantined: false };
    let b = DrainReport { joined: 4, pending: 5, native_pending: 6, quarantined: true };
    assert_eq!(
        both(a, b),
        DrainReport { joined: 5, pending: 7, native_pending: 9, quarantined: true }
    );
    let mut s = TaskSupervisor::new();
    let t = s.spawn(ScopeId(1), 1).unwrap();
    assert!(s.cancel(t));
    assert!(!s.cancel(Token(99)));
    s.complete(t, 1);
    assert!(s.accepts_completion(t, 1));
    s.poll_scope(ScopeId(1), &vec![t]);
    assert!(!s.accepts_completion(t, 1));
}

#[test]
fn guards_hold_drain_until_drop_and_native_completion_is_idempotent() {
    let mut ledger = DrainLedger::new();
    let callback = ledger.enter_callback().unwrap();
    let cleanup = ledger.begin_cleanup().unwrap();
    let native = ledger.register_native().unwrap();
    assert!(matches!(
        ledger.poll(),
        DrainState::Pending { callbacks: 1, cleanup: 1, native: 1 }
    ));
    assert!(ledger.record_native_completion(native));
    assert!(!ledger.record_native_completion(native));
    assert!(ledger.leave_callback(callback));
    assert!(ledger.end_cleanup(cleanup));
    assert_eq!(ledger.poll(), DrainState::Complete);
}

#[test]
fn callback_can_revoke_itself_without_reinsertion() {
    let owner: LocalScope<u32> = LocalScope::new(ScopeId(1), 8);
    let mut sink: EventSink<u32> = EventSink::new();
    let mut count = 0;
    let registration = sink.register(owner.handle(), Some(owner.lease()), 1).unwrap();
    for _ in 0..2 {
        for (id, _) in sink.to_tell() {
            if let Some(callback) = sink.take_callback(id, Some(owner.lease())) {
                count += callback;
                sink.revoke(registration);
                sink.return_callback(id, registration.generation, Some(owner.lease()), callback);
            }
        }
    }
    assert_eq!(count, 1);
    assert!(sink.is_empty());
}

#[test]
fn mount_failure_rolls_back_created_panel_once() {
    let mut stopped = 0;
    let mut transaction: ActivationTransaction<u32> = ActivationTransaction::begin();
    transaction.create(Ok(5)).unwrap();
    let key = InstanceKey { id: 1, activation: 1 };
    let failure = transaction
        .attach_initial(
            Some(MountKey { instance: key, generation: 1 }),
            Err(Error::Backend("mount failed".to_string())),
        )
        .unwrap_err();
    assert_eq!(failure, ActivationFailure::Mount("mount failed".to_string()));
    if let Some(back) = transaction.rollback() {
        assert_eq!(back.panel, 5);
        stopped += 1;
    }
    if transaction.rollback().is_some() {
        stopped += 1;
    }
    assert_eq!(stopped, 1);
}

#[test]
fn activations_fail_by_name() {
    let mut t: ActivationTransaction<u32> = ActivationTransaction::begin();
    assert_eq!(
        t.create(Err(Error::Closed)),
        Err(ActivationFailure::Create("scope is closed".to_string()))
    );
    assert!(matches!(t.commit(), Err(ActivationFailure::Commit(_))));
    let mut t: ActivationTransaction<u32> = ActivationTransaction::begin();
    t.create(Ok(9)).unwrap();
    t.attach_initial(None, Ok(())).unwrap();
    assert_eq!(t.commit(), Ok((9, None)));
}

#[test]
fn instances_are_kept_by_id() {
    let mut store: PanelStore<u32, u8> = PanelStore::new();
    store.register_provider("p".to_string(), 3).unwrap();
    assert_eq!(store.register_provider("p".to_string(), 4), Err(Error::Duplicate));
    assert_eq!(store.provider("p"), Some(&3));
    assert_eq!(store.provider("q"), None);
    let key = InstanceKey { id: 1, activation: 1 };
    let record = |panel: u32| InstanceRecord {
        key,
        provider_id: "p".to_string(),
        mount: None,
        panel,
    };
    store.insert(record(10)).unwrap();
    assert_eq!(store.insert(record(11)), Err(Error::Duplicate));
    let mount = MountKey { instance: key, generation: 2 };
    assert!(store.set_mount(1, Some(mount)));
    assert!(!store.set_mount(2, None));
    assert_eq!(store.instance(1).unwrap().panel, 10);
    let removed = store.remove(1, StopReason::Deleted).unwrap();
    assert_eq!(removed.unmount, Some(mount));
    assert!(store.remove(1, StopReason::Deleted).is_none());
    assert!(PollBudget { max_events: 2, max_duration_ms: 4 }.allows(1, 3));
    assert!(!PollBudget { max_events: 2, max_duration_ms: 4 }.allows(2, 3));
    assert!(!PollBudget { max_events: 2, max_duration_ms: 4 }.allows(1, 4));
}

#[test]
fn repeated_sync_of_same_theme_keeps_epoch_stable() {
    let mut host = ThemeHost::new();
    host.sync(Look::Dark);
    let before = host.epoch();
    for _ in 0..100 {
        host.sync(Look::Dark);
    }
    assert_eq!(host.epoch(), before, "identical tokens must not advance the epoch");
    let first = host.snapshot();
    host.sync(Look::Dark);
    assert_eq!(host.snapshot(), first);
}

#[test]
fn mode_change_advances_epoch_and_revision() {
    let mut host = ThemeHost::new();
    host.sync(Look::Dark);
    let before = host.epoch();
    host.sync(Look::Light);
    assert!(host.epoch() > before, "mode change must advance the epoch");
    assert_ne!(host.snapshot().revision, 0);
}

#[test]
fn palettes_hold_their_colours() {
    let dark = theme_snapshot_for(Look::Dark, 4);
    assert_eq!(dark.revision, 4);
    assert_eq!(dark.tokens.surface_panel.r, Dip { bits: 0.125f32.to_bits() });
    let light = theme_snapshot_for(Look::Light, 4);
    assert!(same_tokens(&dark.tokens, &dark.tokens));
    assert!(!same_tokens(&dark.tokens, &light.tokens));
}

fn open(id: u64) -> LeaseState {
    LeaseState { id: ScopeId(id), generation: 1, open: true }
}

#[test]
fn an_expected_revision_holds_once() {
    let mut storage = MemoryStorage::new();
    let scope = ScopeHandle::of(open(1));
    assert!(storage.compare_and_set(scope, Some(open(1)), "k", None, vec![1]).is_ok());
    assert!(storage.compare_and_set(scope, Some(open(1)), "k", None, vec![2]).is_err());
    assert_eq!(
        storage.compare_and_set(scope, None, "k", None, vec![2]),
        Err(Error::Closed)
    );
    assert!(storage.read(scope, Some(open(1))).is_ok());
    assert_eq!(storage.read(scope, None), Err(Error::Closed));
}

#[test]
fn only_web_addresses_are_opened() {
    let scope = ScopeHandle::of(open(1));
    let to = |uri: &str| ExternalTarget {
        system: "jira".to_string(),
        https_uri: uri.to_string(),
    };
    assert_eq!(check_navigation(scope, Some(open(1)), &to("https://example.org")), Ok(()));
    assert!(matches!(
        check_navigation(scope, Some(open(1)), &to("file:///c:/x")),
        Err(Error::Invalid(_))
    ));
    assert_eq!(
        check_navigation(scope, None, &to("https://example.org")),
        Err(Error::Closed)
    );
}

#[test]
fn the_oldest_events_make_room() {
    let mut pipe = PipeState::new();
    for i in 0..130u8 {
        pipe.publish(PipeEvent {
            to: RouteEntry {
                local: Token(1),
                route: Route { owner: ScopeId(1), generation: 1 },
            },
            bytes: vec![i],
        });
    }
    let events = pipe.take_events();
    assert_eq!(events.len(), 128);
    assert_eq!(events[0].bytes, vec![2]);
    assert_eq!(events[127].bytes, vec![129]);
    assert!(pipe.take_events().is_empty());
    let scope = ScopeHandle::of(open(1));
    let command = pipe.begin_subscribe(scope, Some(open(1)), "spm.v2/read-model").unwrap();
    assert_eq!(pipe.begin_subscribe(scope, None, "spm.v2/read-model"), Err(Error::Closed));
    assert!(matches!(
        pipe.begin_subscribe(scope, Some(open(1)), "elsewhere"),
        Err(Error::Invalid(_))
    ));
    let token = command.token;
    pipe.end_subscribe(command);
    assert_eq!(pipe.senders(scope, Some(open(1))), Ok(vec![token]));
    assert_eq!(pipe.cancel(token), Ok(()));
    assert!(pipe.cancel(token).is_err());
}

fn spec(config: &str) -> PanelSpec {
    PanelSpec {
        provider: "p".to_string(),
        instance_id: 6,
        config_version: 1,
        config: config.to_string(),
    }
}

fn nothing_left() -> DrainReport {
    DrainReport { joined: 0, pending: 0, native_pending: 0, quarantined: false }
}

#[test]
fn panels_are_made_once_and_anew_for_another_configuration() {
    let mut services: ServiceRegistry<u32> = ServiceRegistry::new();
    let key = || ServiceKey::new("host", "number", 1, 77);
    services.publish(key(), ScopeId(90), 7).unwrap();
    let mut host: PanelHost<u32, u32> = PanelHost::new(services);
    let keys = vec![key()];
    assert!(matches!(
        host.resolve(&spec("{}"), false, &keys, nothing_left(), 0),
        ResolveStep::Refused { .. }
    ));
    let act = match host.resolve(&spec("{ \"a\" : 1 }"), true, &keys, nothing_left(), 0) {
        ResolveStep::Activate { ended: None, activation } => activation,
        _ => panic!("a new panel is activated"),
    };
    assert_eq!(act.rights.len(), 1);
    assert_eq!(act.provider, "p");
    assert_eq!(act.create.config.version, 1);
    assert_eq!(act.create.config.bytes, b"{\"a\":1}".to_vec());
    let (made, instance_scope) = (act.create.key, act.instance_scope);
    assert_eq!(made.id, 6);
    host.commit(act);
    match host.resolve(&spec("{\"a\":  1}"), true, &keys, nothing_left(), 1) {
        ResolveStep::Reuse(k) => assert_eq!(k, made),
        _ => panic!("the same configuration is the same panel"),
    }
    assert!(matches!(
        host.resolve(&spec("{\"a\":2}"), true, &keys, nothing_left(), 2),
        ResolveStep::Stop { reason: StopReason::Reconfigured, .. }
    ));
    assert!(!host.takes_event(6, instance_scope, 1));
    let busy = DrainReport { joined: 0, pending: 1, native_pending: 0, quarantined: false };
    assert!(matches!(host.poll_panel(6, busy, 3), PollStep::Waiting));
    assert!(matches!(host.poll_panel(6, busy, 9999), PollStep::Overdue));
    assert!(matches!(host.poll_panel(6, nothing_left(), 10), PollStep::Ended { .. }));
    assert!(matches!(
        host.resolve(&spec("{\"a\":2}"), true, &keys, nothing_left(), 11),
        ResolveStep::Activate { .. }
    ));
}

#[test]
fn panels_that_are_not_wanted_are_found() {
    let mut host: PanelHost<u32, u32> = PanelHost::new(ServiceRegistry::new());
    let act = match host.resolve(&spec("{}"), true, &vec![], nothing_left(), 0) {
        ResolveStep::Activate { activation, .. } => activation,
        _ => panic!("a new panel is activated"),
    };
    let first = act.mount;
    host.commit(act);
    assert_eq!(host.stale_panels(&vec![6]), Vec::<u128>::new());
    assert_eq!(host.stale_panels(&vec![7]), vec![6]);
    let detached = host.detach_mount(6).unwrap();
    assert_eq!(detached.map(|d| d.unmount), Some(first));
    let (scope, mount) = host.begin_attach(6).unwrap();
    assert!(mount.generation > first.generation);
    host.end_attach(6, scope, mount);
    assert!(host.begin_attach(99).is_err());
    let closing = host.close_panel(6, 5).unwrap();
    assert_eq!(closing.unmount, Some(mount));
    assert!(host.close_panel(99, 5).is_none());
}

#[test]
fn a_panel_waits_for_the_last_one() {
    let p = "p".to_string();
    let c = "{}".to_string();
    let record = |drain_started: Option<u64>| HostRecord {
        provider: p.clone(),
        config: c.clone(),
        activation: 1,
        scope: 2,
        mount_scope: None,
        mount_key: None,
        drain_started,
    };
    let busy = DrainReport { joined: 0, pending: 1, native_pending: 0, quarantined: false };
    let q = "q".to_string();
    assert_eq!(previous(None, &p, true, busy, 0), Previous::Absent);
    assert_eq!(previous(Some(&record(None)), &p, true, busy, 0), Previous::Same);
    assert_eq!(previous(Some(&record(None)), &p, false, busy, 0), Previous::Other);
    assert_eq!(previous(Some(&record(None)), &q, true, busy, 0), Previous::Other);
    assert_eq!(previous(Some(&record(Some(0))), &p, true, busy, 4999), Previous::Draining);
    assert_eq!(previous(Some(&record(Some(0))), &p, true, busy, 5001), Previous::Overdue);
    assert_eq!(previous(Some(&record(Some(0))), &p, true, nothing_left(), 9), Previous::Drained);
}

#[test]
fn settings_are_compared_as_values() {
    let mut host: PanelHost<u32, u32> = PanelHost::new(ServiceRegistry::new());
    let act = match host.resolve(&spec("{\"x\": 0.0, \"y\": 1}"), true, &vec![], nothing_left(), 0) {
        ResolveStep::Activate { activation, .. } => activation,
        _ => panic!("a new panel is activated"),
    };
    host.commit(act);
    assert!(matches!(
        host.resolve(&spec("{\"y\":1,\"x\":-0.0}"), true, &vec![], nothing_left(), 1),
        ResolveStep::Reuse(_)
    ));
    assert!(matches!(
        host.resolve(&spec("{\"y\":1"), true, &vec![], nothing_left(), 1),
        ResolveStep::Refused { ended: None, error: Error::Invalid(_) }
    ));
    assert!(matches!(
        host.resolve(&spec("{\"y\":1.0,\"x\":0}"), true, &vec![], nothing_left(), 2),
        ResolveStep::Stop { reason: StopReason::Reconfigured, error: Error::Backend(_), .. }
    ));
    let busy = DrainReport { joined: 0, pending: 1, native_pending: 0, quarantined: false };
    assert!(matches!(
        host.resolve(&spec("{}"), true, &vec![], busy, 3),
        ResolveStep::Refused { ended: None, error: Error::Backend(_) }
    ));
    assert_eq!(host.next_activation, 2);
}

#[test]
fn a_panel_without_its_services_is_refused() {
    let mut services: ServiceRegistry<u32> = ServiceRegistry::new();
    services.publish(ServiceKey::new("host", "number", 1, 77), ScopeId(90), 7).unwrap();
    let mut host: PanelHost<u32, u32> = PanelHost::new(services);
    let keys = vec![
        ServiceKey::new("host", "number", 1, 77),
        ServiceKey::new("host", "absent", 1, 77),
    ];
    assert!(matches!(
        host.resolve(&spec("{}"), true, &keys, nothing_left(), 0),
        ResolveStep::Refused { ended: None, error: Error::Revoked }
    ));
    assert_eq!((host.next_activation, host.next_mount), (2, 1));
    host.next_mount = u64::MAX;
    assert!(matches!(
        host.resolve(&spec("{}"), true, &vec![], nothing_left(), 0),
        ResolveStep::Refused { ended: None, error: Error::Exhausted }
    ));
    assert!(matches!(
        host.resolve(&spec("{}"), false, &vec![], nothing_left(), 0),
        ResolveStep::Refused { ended: None, error: Error::Invalid(_) }
    ));
}

#[test]
fn scopes_say_what_they_are() {
    let scope: LocalScope<u32> = LocalScope::new(ScopeId(4), 9);
    assert_eq!(ask(&scope), LeaseState { id: ScopeId(4), generation: 9, open: true });
    assert_eq!(ScopeHandle::from_lease(&scope), ScopeHandle { id: ScopeId(4), generation: 9 });
}

#[test]
fn an_ended_panel_takes_its_provider_along() {
    let mut host: PanelHost<u32, u32> = PanelHost::new(ServiceRegistry::new());
    let act = match host.resolve(&spec("{}"), true, &vec![], nothing_left(), 0) {
        ResolveStep::Activate { activation, .. } => activation,
        _ => panic!("a new panel is activated"),
    };
    let (provider, instance, mount) = (act.provider_scope, act.instance_scope, act.mount_scope);
    host.commit(act);
    assert_eq!(host.scopes.len(), 4);
    assert_eq!(host.scopes.defer(ScopeId(instance), 1), Ok(()));
    assert_eq!(host.scopes.defer(ScopeId(mount), 2), Ok(()));
    assert_eq!(host.scopes.defer_destroy(ScopeId(instance), 3), Ok(()));
    assert_eq!(host.scopes.defer_destroy(ScopeId(provider), 4), Ok(()));
    let closing = host.close_panel(6, 0).unwrap();
    let (scope, plan) = closing.mount.unwrap();
    assert_eq!((scope, plan.undos), (mount, vec![(mount, 2)]));
    assert_eq!(closing.plan.undos, vec![(instance, 1)]);
    host.end_stop(&plan.order, &vec![]);
    host.end_stop(&closing.plan.order, &vec![(instance, Error::Revoked)]);
    assert_eq!(host.scopes.phase(ScopeId(instance)), Some(RuntimePhase::Draining));
    let busy = DrainReport { joined: 0, pending: 1, native_pending: 0, quarantined: false };
    assert!(matches!(host.poll_panel(6, busy, 5000), PollStep::Overdue));
    assert_eq!(host.scopes.phase(ScopeId(instance)), Some(RuntimePhase::Quarantined));
    match host.poll_panel(6, nothing_left(), 5001) {
        PollStep::Ended { panel, provider: Some(top) } => {
            assert_eq!(panel.order, vec![mount, instance]);
            assert_eq!(panel.undos, vec![(instance, 3)]);
            assert_eq!(top.undos, vec![(provider, 4)]);
        }
        _ => panic!("the panel has ended"),
    }
    assert_eq!(host.scopes.len(), 1);
    assert!(host.records.is_empty());
}

#[test]
fn a_detached_mount_ends_with_its_tasks() {
    let mut host: PanelHost<u32, u32> = PanelHost::new(ServiceRegistry::new());
    let act = match host.resolve(&spec("{}"), true, &vec![], nothing_left(), 0) {
        ResolveStep::Activate { activation, .. } => activation,
        _ => panic!("a new panel is activated"),
    };
    let mount = act.mount_scope;
    host.commit(act);
    assert_eq!(host.scopes.defer_destroy(ScopeId(mount), 8), Ok(()));
    let detached = host.detach_mount(6).unwrap().unwrap();
    let (scope, plan) = detached.mount.unwrap();
    assert_eq!(scope, mount);
    host.end_stop(&plan.order, &vec![]);
    let busy = DrainReport { joined: 0, pending: 0, native_pending: 1, quarantined: false };
    assert!(matches!(host.end_detach(mount, busy), Ok(None)));
    assert_eq!(host.scopes.len(), 4);
    match host.end_detach(mount, nothing_left()) {
        Ok(Some(end)) => {
            assert_eq!(end.plan.undos, vec![(mount, 8)]);
            assert_eq!(end.removed, Ok(1));
        }
        _ => panic!("nothing of the mount is left"),
    }
    assert_eq!(host.scopes.len(), 3);
    assert!(matches!(host.end_detach(mount, nothing_left()), Err(Error::Closed)));
    let (failed, _) = host.begin_attach(6).unwrap();
    assert!(host.abandon(failed).is_some());
    assert_eq!(host.scopes.len(), 3);
    let (again, key) = host.begin_attach(6).unwrap();
    host.end_attach(6, again, key);
    assert_eq!(host.begin_attach(6), Err(Error::Duplicate));
    assert_eq!(host.begin_attach(7), Err(Error::Closed));
    assert_eq!(host.panel_key(6), Ok(key.instance));
    assert!(matches!(host.panel_key(7), Err(Error::Invalid(_))));
    host.detach_mount(6).unwrap();
    host.next_mount = u64::MAX;
    let scopes = host.scopes.len();
    assert_eq!(host.begin_attach(6), Err(Error::Exhausted));
    assert_eq!(host.scopes.len(), scopes + 1);
}

#[test]
fn a_panel_that_was_found_is_found_again() {
    let mut host: PanelHost<u32, u32> = PanelHost::new(ServiceRegistry::new());
    let act = match host.resolve(&spec("{\"a\":1}"), true, &vec![], nothing_left(), 0) {
        ResolveStep::Activate { activation, .. } => activation,
        _ => panic!("a new panel is activated"),
    };
    let key = act.create.key;
    host.commit(act);
    for text in ["{ \"a\":1}", "{\"a\" :1}", "{\"a\":1}"] {
        assert!(matches!(
            host.resolve(&spec(text), true, &vec![], nothing_left(), 1),
            ResolveStep::Reuse(k) if k == key
        ));
    }
    assert!(matches!(
        host.resolve(&spec("{\"a\":1.5}"), true, &vec![], nothing_left(), 2),
        ResolveStep::Stop { .. }
    ));
}
