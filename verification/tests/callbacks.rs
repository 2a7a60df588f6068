use smoke::action::{Action, ActionOnce};
use smoke::channel::{ExecutionFailure, Receiver, Slot};
use smoke::event::Event;
use smoke::handle::{Handle, ResultSlot};
use smoke::observable::{Observer, Subject};
use smoke::racer::Racer;
use std::sync::{Arc, Mutex};

fn log() -> Arc<Mutex<Vec<String>>> {
    Arc::new(Mutex::new(Vec::new()))
}

fn entries(log: &Arc<Mutex<Vec<String>>>) -> Vec<String> {
    log.lock().unwrap().clone()
}

#[test]
fn an_action_runs_each_time_it_is_called() {
    let seen = log();
    let sink = seen.clone();
    let action = Action::new(move |n: i32| sink.lock().unwrap().push(format!("{}", n)));
    action.call(1);
    action.call(2);
    assert_eq!(entries(&seen), vec!["1", "2"]);
}

#[test]
fn an_action_once_runs_with_its_value() {
    let seen = log();
    let sink = seen.clone();
    let action = ActionOnce::new(move |n: i32| sink.lock().unwrap().push(format!("{}", n)));
    action.call(3);
    assert_eq!(entries(&seen), vec!["3"]);
}

#[test]
fn the_first_action_wins_the_race() {
    let seen = log();
    let mut racer = Racer::new();
    assert!(!racer.complete());
    let sink = seen.clone();
    racer.set(move || sink.lock().unwrap().push("first".to_string()));
    assert!(racer.complete());
    let sink = seen.clone();
    racer.set(move || sink.lock().unwrap().push("second".to_string()));
    assert!(racer.complete());
    assert_eq!(entries(&seen), vec!["first"]);
}

#[test]
fn emit_calls_every_listener_and_drops_the_listeners_for_one_emit() {
    let seen = log();
    let mut event: Event<i32> = Event::new();
    let sink = seen.clone();
    event.on(move |n| sink.lock().unwrap().push(format!("a{}", n)));
    let sink = seen.clone();
    event.once(move |n| sink.lock().unwrap().push(format!("once{}", n)));
    let sink = seen.clone();
    event.on(move |n| sink.lock().unwrap().push(format!("b{}", n)));
    event.emit(1);
    event.emit(2);
    assert_eq!(entries(&seen), vec!["a1", "b1", "once1", "a2", "b2"]);
}

#[test]
fn emit_without_listeners_does_nothing() {
    let mut event: Event<i32> = Event::new();
    event.emit(1);
}

#[test]
fn a_subject_notifies_its_observers_in_order() {
    let seen = log();
    let mut subject: Subject<i32> = Subject::new();
    let (next, error, end) = (seen.clone(), seen.clone(), seen.clone());
    let first = subject.subscribe(
        move |n| next.lock().unwrap().push(format!("a:next{}", n)),
        move || error.lock().unwrap().push("a:error".to_string()),
        move || end.lock().unwrap().push("a:end".to_string()),
    );
    let (next, error, end) = (seen.clone(), seen.clone(), seen.clone());
    let second = subject.subscribe(
        move |n| next.lock().unwrap().push(format!("b:next{}", n)),
        move || error.lock().unwrap().push("b:error".to_string()),
        move || end.lock().unwrap().push("b:end".to_string()),
    );
    assert_eq!((first, second), (0, 1));
    subject.onnext(7);
    subject.onerror();
    subject.onend();
    assert_eq!(
        entries(&seen),
        vec!["a:next7", "b:next7", "a:error", "b:error", "a:end", "b:end"]
    );
}

#[test]
fn an_observer_is_made_of_three_closures() {
    let _: Observer<i32> = Observer::new(|_| {}, || {}, || {});
}

#[test]
fn a_handle_resolves_to_the_first_delivered_value() {
    let handle = Handle::new(Receiver::from_slot(Slot::Full(5)));
    assert_eq!(handle.wait(), Ok(5));
    let handle = Handle::new(Receiver::from_vec(vec![1, 2]));
    assert_eq!(handle.wait(), Ok(1));
}

#[test]
fn a_handle_without_a_value_resolves_to_the_failure() {
    let handle: Handle<i32> = Handle::new(Receiver::from_slot(Slot::Empty));
    assert_eq!(handle.wait(), Err(ExecutionFailure));
    let handle: Handle<i32> = Handle::new(Receiver::from_slot(Slot::Closed));
    assert_eq!(handle.wait(), Err(ExecutionFailure));
    let handle: Handle<i32> = Handle::new(Receiver::new());
    assert_eq!(handle.wait(), Err(ExecutionFailure));
}

#[test]
fn a_result_slot_keeps_the_first_result() {
    let mut slot = ResultSlot::new();
    assert!(!slot.is_populated());
    assert_eq!(slot.take(), None);
    assert!(slot.populate(Ok(1)));
    assert!(slot.is_populated());
    assert!(!slot.populate(Ok(2)));
    assert!(!slot.populate(Err(ExecutionFailure)));
    assert_eq!(slot.take(), Some(Ok(1)));
    assert!(!slot.is_populated());
    assert_eq!(slot.take(), None);
    assert!(slot.populate(Err(ExecutionFailure)));
    assert_eq!(slot.take(), Some(Err(ExecutionFailure)));
}
