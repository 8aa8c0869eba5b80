use rs_events::threaded;
use rs_events::{Callback, EventEmitter, EventError, EventHandler, EventPayload, Listener};
use std::sync::{Arc, Mutex};

fn noop() -> Callback<String> {
    Callback(Arc::new(|_: &EventPayload<String>| {}))
}

fn recorder(log: &Arc<Mutex<Vec<u32>>>, tag: u32) -> Callback<String> {
    let log = Arc::clone(log);
    Callback(Arc::new(move |_: &EventPayload<String>| {
        log.lock().unwrap().push(tag);
    }))
}

fn payload() -> EventPayload<String> {
    Arc::new("payload".to_string())
}

#[test]
fn new_emitter_is_empty_with_given_limit() {
    let emitter = EventEmitter::<String>::new(20);
    assert_eq!(emitter.max_listeners(), 20);
    assert_eq!(emitter.listener_count("any"), 0);
    assert!(emitter.event_names().is_empty());
}

#[test]
fn default_emitter_admits_ten_listeners() {
    let emitter = EventEmitter::<String>::default();
    assert_eq!(emitter.max_listeners(), 10);
}

#[test]
fn set_max_listeners_changes_limit() {
    let mut emitter = EventEmitter::<String>::default();
    emitter.set_max_listeners(2);
    assert_eq!(emitter.max_listeners(), 2);
    emitter.add_listener("a", noop()).unwrap();
    emitter.add_listener("a", noop()).unwrap();
    assert!(matches!(emitter.add_listener("a", noop()), Err(EventError::OverloadedEvent)));
    assert_eq!(emitter.listener_count("a"), 2);
}

#[test]
fn refused_add_still_registers_event() {
    let mut emitter = EventEmitter::<String>::new(0);
    assert!(matches!(emitter.add_listener("ghost", noop()), Err(EventError::OverloadedEvent)));
    assert_eq!(emitter.listener_count("ghost"), 0);
    // The event exists: emitting it succeeds, removing from it finds no listener.
    assert_eq!(emitter.emit("ghost", payload()), Ok(()));
    let stranger = Listener::new(noop(), None);
    assert_eq!(emitter.remove_listener("ghost", &stranger), Err(EventError::ListenerNotFound));
    // It has no listener, so it is not among the active names.
    assert!(emitter.event_names().is_empty());
}

#[test]
fn emit_unknown_event_fails() {
    let mut emitter = EventEmitter::<String>::default();
    assert_eq!(emitter.emit("missing", payload()), Err(EventError::EventNotFound));
    assert_eq!(emitter.emit_final("missing", payload()), Err(EventError::EventNotFound));
    assert_eq!(emitter.remove_all_listeners("missing"), Err(EventError::EventNotFound));
}

#[test]
fn emit_runs_last_registered_first() {
    let log = Arc::new(Mutex::new(Vec::new()));
    let mut emitter = EventEmitter::<String>::default();
    emitter.add_listener("e", recorder(&log, 1)).unwrap();
    emitter.add_listener("e", recorder(&log, 2)).unwrap();
    emitter.add_listener("e", recorder(&log, 3)).unwrap();
    emitter.emit("e", payload()).unwrap();
    assert_eq!(*log.lock().unwrap(), vec![3, 2, 1]);
}

#[test]
fn emit_final_runs_in_registration_order_and_removes_event() {
    let log = Arc::new(Mutex::new(Vec::new()));
    let mut emitter = EventEmitter::<String>::default();
    emitter.add_listener("e", recorder(&log, 1)).unwrap();
    emitter.add_once("e", recorder(&log, 2)).unwrap();
    emitter.add_listener("other", recorder(&log, 9)).unwrap();
    emitter.emit_final("e", payload()).unwrap();
    assert_eq!(*log.lock().unwrap(), vec![1, 2]);
    assert_eq!(emitter.listener_count("e"), 0);
    assert_eq!(emitter.listener_count("other"), 1);
    assert_eq!(emitter.emit("e", payload()), Err(EventError::EventNotFound));
}

#[test]
fn prepare_emit_hands_back_callbacks_in_firing_order() {
    let log = Arc::new(Mutex::new(Vec::new()));
    let mut emitter = EventEmitter::<String>::default();
    let first = emitter.add_listener("e", recorder(&log, 1)).unwrap();
    let second = emitter.add_once("e", recorder(&log, 2)).unwrap();
    let firing = emitter.prepare_emit("e").unwrap();
    assert_eq!(firing.len(), 2);
    assert!(second.eq_callback(firing[0].clone()));
    assert!(first.eq_callback(firing[1].clone()));
    // The one-shot listener is gone, the unlimited one stays.
    assert_eq!(emitter.listener_count("e"), 1);
    // Nothing ran: the caller runs the callbacks.
    assert!(log.lock().unwrap().is_empty());
}

#[test]
fn prepare_emit_final_hands_back_callbacks_in_registration_order() {
    let log = Arc::new(Mutex::new(Vec::new()));
    let mut emitter = EventEmitter::<String>::default();
    let first = emitter.add_listener("e", recorder(&log, 1)).unwrap();
    let second = emitter.add_listener("e", recorder(&log, 2)).unwrap();
    let firing = emitter.prepare_emit_final("e").unwrap();
    assert!(first.eq_callback(firing[0].clone()));
    assert!(second.eq_callback(firing[1].clone()));
    assert_eq!(emitter.listener_count("e"), 0);
    assert!(matches!(emitter.prepare_emit_final("e"), Err(EventError::EventNotFound)));
    assert!(matches!(emitter.prepare_emit("e"), Err(EventError::EventNotFound)));
}

#[test]
fn limited_listener_counts_down_inside_emitter() {
    let log = Arc::new(Mutex::new(Vec::new()));
    let mut emitter = EventEmitter::<String>::default();
    emitter.add_limited_listener("e", recorder(&log, 1), 3).unwrap();
    emitter.add_listener("e", recorder(&log, 2)).unwrap();
    for _ in 0..3 {
        emitter.emit("e", payload()).unwrap();
    }
    assert_eq!(emitter.listener_count("e"), 1);
    emitter.emit("e", payload()).unwrap();
    assert_eq!(*log.lock().unwrap(), vec![2, 1, 2, 1, 2, 1, 2]);
}

#[test]
fn add_with_zero_lifetime_is_unlimited() {
    let mut emitter = EventEmitter::<String>::default();
    emitter.add("e", Some(0), noop()).unwrap();
    emitter.add_limited_listener("e", noop(), 0).unwrap();
    for _ in 0..50 {
        emitter.emit("e", payload()).unwrap();
    }
    assert_eq!(emitter.listener_count("e"), 2);
}

#[test]
fn add_with_lifetime_is_limited() {
    let mut emitter = EventEmitter::<String>::default();
    emitter.add("e", Some(2), noop()).unwrap();
    emitter.emit("e", payload()).unwrap();
    assert!(emitter.has_listener("e"));
    emitter.emit("e", payload()).unwrap();
    assert!(!emitter.has_listener("e"));
}

#[test]
fn remove_takes_out_every_listener_of_the_callback() {
    let mut emitter = EventEmitter::<String>::default();
    let shared = noop();
    let first = emitter.add_listener("e", shared.clone()).unwrap();
    emitter.add_once("e", shared.clone()).unwrap();
    emitter.add_listener("e", noop()).unwrap();
    assert_eq!(emitter.remove_listener("e", &first), Ok(()));
    assert_eq!(emitter.listener_count("e"), 1);
    assert_eq!(emitter.remove_listener("e", &first), Err(EventError::ListenerNotFound));
}

#[test]
fn remove_then_readd_restores_count() {
    let mut emitter = EventEmitter::<String>::default();
    emitter.add_listener("e", noop()).unwrap();
    let added = emitter.add_listener("e", noop()).unwrap();
    assert_eq!(emitter.listener_count("e"), 2);
    emitter.remove_listener("e", &added).unwrap();
    assert_eq!(emitter.listener_count("e"), 1);
}

#[test]
fn event_names_lists_active_events_once() {
    let mut emitter = EventEmitter::<String>::default();
    emitter.add_listener("a", noop()).unwrap();
    emitter.add_listener("a", noop()).unwrap();
    let gone = emitter.add_once("b", noop()).unwrap();
    emitter.add_listener("c", noop()).unwrap();
    emitter.remove_listener("b", &gone).unwrap();
    let mut names = emitter.event_names();
    names.sort();
    assert_eq!(names, vec!["a".to_string(), "c".to_string()]);
}

#[test]
fn remove_all_keeps_other_events() {
    let mut emitter = EventEmitter::<String>::default();
    emitter.add_listener("a", noop()).unwrap();
    emitter.add_listener("b", noop()).unwrap();
    assert_eq!(emitter.remove_all_listeners("a"), Ok(()));
    assert_eq!(emitter.listener_count("a"), 0);
    assert_eq!(emitter.listener_count("b"), 1);
    assert_eq!(emitter.remove_all_listeners("a"), Err(EventError::EventNotFound));
}

#[test]
fn listener_budget_counts_down() {
    let log = Arc::new(Mutex::new(Vec::new()));
    let mut listener = Listener::new(recorder(&log, 7), Some(2));
    assert!(!listener.at_limit());
    listener.call(&payload());
    assert!(!listener.at_limit());
    listener.call(&payload());
    assert!(listener.at_limit());
    assert_eq!(*log.lock().unwrap(), vec![7, 7]);
}

#[test]
fn listener_with_zero_budget_starts_at_limit() {
    let listener = Listener::new(noop(), Some(0));
    assert!(listener.at_limit());
    let unlimited = Listener::new(noop(), None);
    assert!(!unlimited.at_limit());
}

#[test]
fn listener_identity_follows_callback() {
    let shared = noop();
    let a = Listener::new(shared.clone(), Some(3));
    let b = Listener::new(shared.clone(), None);
    let c = Listener::new(noop(), None);
    assert!(a.eq_callback(shared.clone()));
    assert!(!c.eq_callback(shared.clone()));
    assert!(a == b);
    assert!(a != c);
    let copy = a.clone();
    assert!(copy == a);
    assert!(copy.eq_callback(a.callback().clone()));
}

#[test]
fn tagged_listener_zero_budget_is_unlimited() {
    let listener = threaded::Listener::new(None, noop(), Some(0));
    assert_eq!(listener.remaining_calls(), None);
    assert!(!listener.at_limit());
}

#[test]
fn tagged_listener_stops_at_its_limit() {
    let log = Arc::new(Mutex::new(Vec::new()));
    let mut listener = threaded::Listener::new(Some("t".to_string()), recorder(&log, 5), Some(2));
    assert_eq!(listener.remaining_calls(), Some(2));
    listener.call(&payload());
    assert_eq!(listener.remaining_calls(), Some(1));
    listener.call(&payload());
    assert_eq!(listener.remaining_calls(), Some(0));
    assert!(listener.at_limit());
    listener.call(&payload());
    assert_eq!(listener.remaining_calls(), Some(0));
    assert_eq!(*log.lock().unwrap(), vec![5, 5]);
}

#[test]
fn tagged_listener_try_spend_call() {
    let mut listener = threaded::Listener::new(None, noop(), Some(1));
    assert!(listener.try_spend_call());
    assert!(!listener.try_spend_call());
    let mut unlimited = threaded::Listener::new(None, noop(), None);
    assert!(unlimited.try_spend_call());
    assert_eq!(unlimited.remaining_calls(), None);
}

#[test]
fn tagged_listener_equality_uses_callback_and_tag() {
    let shared = noop();
    let a = threaded::Listener::new(Some("x".to_string()), shared.clone(), None);
    let b = threaded::Listener::new(Some("x".to_string()), shared.clone(), Some(4));
    let c = threaded::Listener::new(Some("y".to_string()), shared.clone(), None);
    let d = threaded::Listener::new(None, shared.clone(), None);
    let e = threaded::Listener::new(Some("x".to_string()), noop(), None);
    assert!(a == b);
    assert!(a != c);
    assert!(a != d);
    assert!(a != e);
    assert!(a.clone() == a);
}

#[test]
fn error_equality_and_messages() {
    assert_eq!(EventError::Other("boom", 42), EventError::Other("boom", 42));
    assert_ne!(EventError::Other("boom", 42), EventError::Other("bang", 42));
    assert_ne!(EventError::Other("boom", 42), EventError::Other("boom", 7));
    assert_ne!(EventError::EventNotFound, EventError::ListenerNotFound);
    assert_eq!(EventError::OverloadedEvent.message(), "Too many listeners for event");
    assert_eq!(EventError::ListenerNotFound.message(), "Listener not found");
    assert_eq!(EventError::EventNotFound.message(), "Event not found");
    assert_eq!(EventError::Other("boom", 42).message(), "Error: boom (code 42)");
    assert_eq!(EventError::Other("", 0).message(), "Error:  (code 0)");
}

#[test]
fn emit_leaves_other_events_alone() {
    let mut emitter = EventEmitter::<String>::default();
    emitter.add_once("a", noop()).unwrap();
    emitter.add_once("b", noop()).unwrap();
    emitter.emit("a", payload()).unwrap();
    assert_eq!(emitter.listener_count("a"), 0);
    assert_eq!(emitter.listener_count("b"), 1);
}

#[test]
fn listener_clones_share_one_budget() {
    let log = Arc::new(Mutex::new(Vec::new()));
    let mut listener = Listener::new(recorder(&log, 4), Some(2));
    let mut copy = listener.clone();
    copy.call(&payload());
    assert_eq!(listener.remaining_calls(), Some(1));
    assert_eq!(copy.remaining_calls(), Some(1));
    listener.call(&payload());
    assert!(listener.at_limit());
    assert!(copy.at_limit());
    assert_eq!(*log.lock().unwrap(), vec![4, 4]);
    assert_eq!(Listener::new(noop(), None).remaining_calls(), None);
}

#[test]
fn handle_from_add_shares_budget_with_emitter() {
    let mut emitter = EventEmitter::<String>::default();
    let mut handle = emitter.add_limited_listener("e", noop(), 3).unwrap();
    emitter.emit("e", payload()).unwrap();
    assert_eq!(handle.remaining_calls(), Some(2));
    handle.call(&payload());
    assert_eq!(handle.remaining_calls(), Some(1));
    emitter.emit("e", payload()).unwrap();
    assert!(handle.at_limit());
    assert_eq!(emitter.listener_count("e"), 0);
}

#[test]
fn tagged_listener_clones_share_one_budget() {
    let mut listener = threaded::Listener::new(None, noop(), Some(2));
    let mut copy = listener.clone();
    copy.call(&payload());
    assert_eq!(listener.remaining_calls(), Some(1));
    assert_eq!(copy.remaining_calls(), Some(1));
    assert!(listener == copy);
    assert!(listener.try_spend_call());
    assert!(copy.at_limit());
    assert!(!copy.try_spend_call());
}

#[test]
fn drop_spent_keeps_unmarked_listeners_in_order() {
    let a = Listener::new(noop(), None);
    let b = Listener::new(noop(), Some(1));
    let c = Listener::new(noop(), Some(4));
    let kept = rs_events::event_emitter::drop_spent(vec![a.clone(), b.clone(), c.clone()], &vec![false, true, false]);
    assert_eq!(kept.len(), 2);
    assert!(kept[0] == a);
    assert!(kept[1] == c);
}

#[test]
fn decremented_steps_the_budget() {
    assert_eq!(rs_events::listener::decremented(3), Some(2));
    assert_eq!(rs_events::listener::decremented(1), Some(0));
    assert_eq!(rs_events::listener::decremented(0), None);
}
