use emitix::{Handler, Listener, ListenerRegistry};

struct Quiet;

impl Handler<u8> for Quiet {
    fn handled(&self, _event_arg: u8, r: Result<(), String>) -> bool {
        r == Ok(())
    }

    fn handle(&self, _event_arg: u8) -> Result<(), String> {
        Ok(())
    }
}

#[test]
fn registry_tracks_kinds_and_counts() {
    let mut reg: ListenerRegistry<Quiet> = ListenerRegistry::new();
    let a = reg.register_listener("x", Listener::new(Quiet));
    let b = reg.register_listener("x", Listener::new(Quiet));
    let c = reg.register_listener("y", Listener::new(Quiet));
    assert_eq!(reg.listeners_count("x"), 2);
    assert_eq!(reg.listeners_count("y"), 1);
    assert_eq!(reg.snapshot("x").len(), 2);
    assert_eq!(reg.snapshot_kinds(&vec!["x".to_string(), "y".to_string()]).len(), 3);
    assert!(reg.remove_listener(b));
    assert_eq!(reg.listeners_count("x"), 1);
    assert!(reg.remove_listener(c));
    assert!(!reg.has_listeners("y"));
    assert_eq!(reg.list_event_kinds(), vec!["x".to_string()]);
    assert_eq!(reg.remove_listeners_by_kind("x"), 1);
    assert!(!reg.remove_listener(a));
    assert!(reg.list_event_kinds().is_empty());
}

#[test]
fn registry_clear_keeps_ids_unique() {
    let mut reg: ListenerRegistry<Quiet> = ListenerRegistry::new();
    let a = reg.register_listener("x", Listener::new(Quiet));
    reg.clear();
    assert_eq!(reg.listeners_count("x"), 0);
    assert!(reg.list_event_kinds().is_empty());
    let b = reg.register_listener("x", Listener::new(Quiet));
    assert_ne!(a, b);
    assert!(!reg.remove_listener(a));
    assert!(reg.remove_listener(b));
}
