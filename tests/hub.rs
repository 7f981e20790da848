use emitix::{deliver, EmitError, EventEmitter, EventHub, EventHubBroadcaster, EventHubEmitter, Handler, Listener, ListenerId};
use std::sync::atomic::{AtomicUsize, Ordering};
use std::sync::{Arc, RwLock};

struct Probe {
    hits: Arc<AtomicUsize>,
    fails: bool,
    label: &'static str,
}

impl Handler<u32> for Probe {
    fn handled(&self, event_arg: u32, r: Result<(), String>) -> bool {
        if self.fails {
            r == Err(format!("{} rejected {}", self.label, event_arg))
        } else {
            r == Ok(())
        }
    }

    fn handle(&self, event_arg: u32) -> Result<(), String> {
        self.hits.fetch_add(1, Ordering::SeqCst);
        if self.fails {
            Err(format!("{} rejected {}", self.label, event_arg))
        } else {
            Ok(())
        }
    }
}

fn probe(label: &'static str) -> (Probe, Arc<AtomicUsize>) {
    let hits = Arc::new(AtomicUsize::new(0));
    (Probe { hits: hits.clone(), fails: false, label }, hits)
}

fn failing(label: &'static str) -> (Probe, Arc<AtomicUsize>) {
    let hits = Arc::new(AtomicUsize::new(0));
    (Probe { hits: hits.clone(), fails: true, label }, hits)
}

fn count(h: &Arc<AtomicUsize>) -> usize {
    h.load(Ordering::SeqCst)
}

#[test]
fn order_created_scenario() {
    let mut hub: EventHub<Probe> = EventHub::new();
    let (p1, c1) = probe("l1");
    let (p2, c2) = probe("l2");
    let id1 = hub.add_listener("order.created", p1);
    let _id2 = hub.add_listener("order.created", p2);
    assert!(hub.emit("order.created", 7).is_ok());
    assert_eq!(count(&c1), 1);
    assert_eq!(count(&c2), 1);
    assert!(hub.remove_listener(id1));
    assert!(hub.emit("order.created", 8).is_ok());
    assert_eq!(count(&c1), 1);
    assert_eq!(count(&c2), 2);
}

#[test]
fn new_hub_is_empty() {
    let hub: EventHub<Probe> = EventHub::new();
    assert!(hub.list_event_kinds().is_empty());
    assert!(!hub.has_listeners("x"));
    assert_eq!(hub.listeners_count("x"), 0);
    assert!(hub.emit("x", 1).is_ok());
}

#[test]
fn ids_are_distinct() {
    let mut hub: EventHub<Probe> = EventHub::new();
    let mut ids: Vec<ListenerId> = Vec::new();
    for i in 0..50 {
        let kind = if i % 2 == 0 { "even" } else { "odd" };
        ids.push(hub.add_listener(kind, probe("p").0));
    }
    for i in 0..ids.len() {
        for j in (i + 1)..ids.len() {
            assert_ne!(ids[i], ids[j]);
            assert_ne!(ids[i].as_u128(), ids[j].as_u128());
        }
    }
    assert_eq!(hub.listeners_count("even"), 25);
    assert_eq!(hub.listeners_count("odd"), 25);
}

#[test]
fn ids_differ_after_removal_and_clear() {
    let mut hub: EventHub<Probe> = EventHub::new();
    let a = hub.add_listener("k", probe("a").0);
    assert!(hub.remove_listener(a));
    hub.clear_listeners();
    let b = hub.add_listener("k", probe("b").0);
    assert_ne!(a, b);
}

#[test]
fn remove_listener_reports_true_once() {
    let mut hub: EventHub<Probe> = EventHub::new();
    let id = hub.add_listener("k", probe("a").0);
    let _other = hub.add_listener("k", probe("b").0);
    assert!(hub.remove_listener(id));
    assert!(!hub.remove_listener(id));
    let _later = hub.add_listener("k", probe("c").0);
    assert!(!hub.remove_listener(id));
    assert_eq!(hub.listeners_count("k"), 2);
}

#[test]
fn remove_unknown_id_is_false() {
    let mut hub: EventHub<Probe> = EventHub::new();
    assert!(!hub.remove_listener(ListenerId::from_u128(42)));
}

#[test]
fn removing_last_listener_drops_kind() {
    let mut hub: EventHub<Probe> = EventHub::new();
    let id = hub.add_listener("solo", probe("a").0);
    assert!(hub.has_listeners("solo"));
    assert!(hub.remove_listener(id));
    assert!(!hub.has_listeners("solo"));
    assert!(hub.list_event_kinds().is_empty());
}

#[test]
fn remove_by_kind_empties_kind() {
    let mut hub: EventHub<Probe> = EventHub::new();
    let a = hub.add_listener("k", probe("a").0);
    hub.add_listener("k", probe("b").0);
    hub.add_listener("k", probe("c").0);
    hub.add_listener("other", probe("d").0);
    assert_eq!(hub.remove_listeners_by_kind("k"), 3);
    assert!(!hub.has_listeners("k"));
    assert_eq!(hub.listeners_count("k"), 0);
    assert!(!hub.remove_listener(a));
    assert_eq!(hub.listeners_count("other"), 1);
    assert_eq!(hub.remove_listeners_by_kind("k"), 0);
    assert_eq!(hub.remove_listeners_by_kind("never"), 0);
}

#[test]
fn emit_without_listeners_succeeds() {
    let mut hub: EventHub<Probe> = EventHub::new();
    let (p, c) = probe("a");
    hub.add_listener("elsewhere", p);
    assert!(hub.emit("nobody", 1).is_ok());
    assert_eq!(count(&c), 0);
}

#[test]
fn emit_reaches_all_despite_failures() {
    let mut hub: EventHub<Probe> = EventHub::new();
    let (p1, c1) = probe("ok1");
    let (p2, c2) = failing("bad");
    let (p3, c3) = probe("ok2");
    hub.add_listener("k", p1);
    hub.add_listener("k", p2);
    hub.add_listener("k", p3);
    let r = hub.emit("k", 5);
    assert_eq!(count(&c1), 1);
    assert_eq!(count(&c2), 1);
    assert_eq!(count(&c3), 1);
    let e: EmitError = r.unwrap_err();
    assert_eq!(e.kinds, vec!["k".to_string()]);
    assert_eq!(e.failures, vec!["bad rejected 5".to_string()]);
}

#[test]
fn emit_collects_every_failure_in_order() {
    let mut hub: EventHub<Probe> = EventHub::new();
    hub.add_listener("k", failing("first").0);
    hub.add_listener("k", probe("fine").0);
    hub.add_listener("k", failing("second").0);
    let e = hub.emit("k", 9).unwrap_err();
    assert_eq!(e.failures, vec!["first rejected 9".to_string(), "second rejected 9".to_string()]);
}

#[test]
fn emitter_reaches_late_listener() {
    let mut hub: EventHub<Probe> = EventHub::new();
    let emitter = hub.new_emitter("k");
    assert!(emitter.emit(&hub, 1).is_ok());
    let (p, c) = probe("late");
    let id = hub.add_listener("k", p);
    assert!(emitter.emit(&hub, 2).is_ok());
    assert_eq!(count(&c), 1);
    let copy = emitter.clone();
    assert!(copy.emit(&hub, 3).is_ok());
    assert_eq!(count(&c), 2);
    assert!(hub.remove_listener(id));
    assert!(emitter.emit(&hub, 4).is_ok());
    assert_eq!(count(&c), 2);
}

#[test]
fn emitter_reports_failures_with_kind() {
    let mut hub: EventHub<Probe> = EventHub::new();
    let emitter = hub.new_emitter("k");
    hub.add_listener("k", failing("bad").0);
    let e = emitter.emit(&hub, 4).unwrap_err();
    assert_eq!(e.kinds, vec!["k".to_string()]);
    assert_eq!(e.failures, vec!["bad rejected 4".to_string()]);
}

#[test]
fn broadcast_to_all_kinds() {
    let mut hub: EventHub<Probe> = EventHub::new();
    let all = hub.new_broadcast_emitter(&[]);
    let (pa, ca) = probe("a");
    let (pb, cb) = probe("b");
    hub.add_listener("a", pa);
    hub.add_listener("b", pb);
    assert!(all.emit(&hub, 1).is_ok());
    assert_eq!(count(&ca), 1);
    assert_eq!(count(&cb), 1);
    let (pc, cc) = probe("c");
    hub.add_listener("c", pc);
    assert!(all.emit(&hub, 2).is_ok());
    assert_eq!(count(&ca), 2);
    assert_eq!(count(&cc), 1);
}

#[test]
fn broadcast_to_named_kind_only() {
    let mut hub: EventHub<Probe> = EventHub::new();
    let (pa, ca) = probe("a");
    let (pb, cb) = probe("b");
    hub.add_listener("a", pa);
    hub.add_listener("b", pb);
    let only_a = hub.new_broadcast_emitter(&["a"]);
    assert!(only_a.emit(&hub, 1).is_ok());
    assert_eq!(count(&ca), 1);
    assert_eq!(count(&cb), 0);
}

#[test]
fn broadcast_repeats_per_listed_kind() {
    let mut hub: EventHub<Probe> = EventHub::new();
    let (pa, ca) = probe("a");
    hub.add_listener("a", pa);
    let twice = hub.new_broadcast_emitter(&["a", "missing", "a"]);
    assert!(twice.emit(&hub, 1).is_ok());
    assert_eq!(count(&ca), 2);
}

#[test]
fn broadcast_failure_names_kinds() {
    let mut hub: EventHub<Probe> = EventHub::new();
    hub.add_listener("a", failing("x").0);
    hub.add_listener("b", probe("y").0);
    let e = hub.new_broadcast_emitter(&["a", "b"]).emit(&hub, 3).unwrap_err();
    assert_eq!(e.kinds, vec!["a".to_string(), "b".to_string()]);
    assert_eq!(e.failures, vec!["x rejected 3".to_string()]);
}

#[test]
fn broadcast_resolve_lists_kinds_and_listeners() {
    let mut hub: EventHub<Probe> = EventHub::new();
    hub.add_listener("a", probe("a").0);
    hub.add_listener("b", probe("b").0);
    hub.add_listener("b", probe("b2").0);
    let (kinds, listeners) = EventHubBroadcaster::new(vec![]).resolve(hub.registry());
    let mut sorted = kinds.clone();
    sorted.sort();
    assert_eq!(sorted, vec!["a".to_string(), "b".to_string()]);
    assert_eq!(listeners.len(), 3);
}

#[test]
fn clear_then_no_kinds() {
    let mut hub: EventHub<Probe> = EventHub::new();
    hub.add_listener("a", probe("a").0);
    hub.add_listener("b", probe("b").0);
    let mut kinds = hub.list_event_kinds();
    kinds.sort();
    assert_eq!(kinds, vec!["a".to_string(), "b".to_string()]);
    hub.clear_listeners();
    assert!(hub.list_event_kinds().is_empty());
    assert!(!hub.has_listeners("a"));
}

#[test]
fn null_emitter_does_nothing() {
    let emitter: EventHubEmitter<Probe> = EventHub::new_null_emitter();
    assert!(emitter.emit(1).is_ok());
    assert!(EventEmitter::emit(&emitter.clone(), 2).is_ok());
}

#[test]
fn direct_emitter_calls_its_listener() {
    let (p, c) = failing("direct");
    let emitter = EventHubEmitter::new(Listener::new(p));
    let e = emitter.emit(6).unwrap_err();
    assert_eq!(count(&c), 1);
    assert_eq!(e.failures, vec!["direct rejected 6".to_string()]);
    assert!(e.kinds.is_empty());
}

#[test]
fn listener_call_passes_outcome() {
    let (p, c) = probe("l");
    let listener = Listener::new(p);
    assert!(listener.call(3u32).is_ok());
    let copy = listener.clone();
    assert!(copy.call(4u32).is_ok());
    assert_eq!(count(&c), 2);
}

#[test]
fn snapshot_is_unaffected_by_later_changes() {
    let mut hub: EventHub<Probe> = EventHub::new();
    let (p, c) = probe("a");
    let id = hub.add_listener("k", p);
    let taken = hub.snapshot("k");
    assert!(hub.remove_listener(id));
    let kinds = vec!["k".to_string()];
    assert!(deliver(kinds, &taken, &1).is_ok());
    assert_eq!(count(&c), 1);
}

struct Reentrant {
    hub: Arc<RwLock<EventHub<Reentrant>>>,
    hits: Arc<AtomicUsize>,
}

impl Handler<u32> for Reentrant {
    fn handled(&self, _event_arg: u32, _r: Result<(), String>) -> bool {
        true
    }

    fn handle(&self, _event_arg: u32) -> Result<(), String> {
        self.hits.fetch_add(1, Ordering::SeqCst);
        let mut hub = self.hub.write().map_err(|e| e.to_string())?;
        hub.add_listener("spawned", Reentrant { hub: self.hub.clone(), hits: self.hits.clone() });
        Ok(())
    }
}

#[test]
fn listener_can_use_same_hub_during_emit() {
    let shared: Arc<RwLock<EventHub<Reentrant>>> = Arc::new(RwLock::new(EventHub::new()));
    let hits = Arc::new(AtomicUsize::new(0));
    shared.write().unwrap().add_listener("go", Reentrant { hub: shared.clone(), hits: hits.clone() });
    let listeners = shared.read().unwrap().snapshot("go");
    assert!(deliver(vec!["go".to_string()], &listeners, &1).is_ok());
    assert_eq!(count(&hits), 1);
    assert_eq!(shared.read().unwrap().listeners_count("spawned"), 1);
}

#[test]
fn probe_outcomes_match_what_it_states() {
    let (ok, _) = probe("ok");
    let (bad, _) = failing("bad");
    assert!(ok.handled(1, ok.handle(1)));
    assert!(bad.handled(2, bad.handle(2)));
    assert!(!bad.handled(2, Ok(())));
}

#[test]
fn listener_id_round_trip() {
    let id = ListenerId::from_u128(0x1234_5678);
    assert_eq!(id.as_u128(), 0x1234_5678);
}
