use oe_core::event::{Event, EventEnum, EventFuncTrait, EventInfo};
use oe_core::event_container::{contains_id, EventContainer};
use oe_core::event_handler::{prefixed_name, EventHandler, MouseCoords};
use std::cell::RefCell;
use std::rc::Rc;

#[derive(Clone)]
struct Logger {
    log: Rc<RefCell<Vec<usize>>>,
    cascade: Vec<usize>,
}

impl EventFuncTrait<u32> for Logger {
    fn call(&self, info: &EventInfo, _data: &Option<u32>) -> Vec<usize> {
        self.log.borrow_mut().push(info.id());
        self.cascade.clone()
    }
}

fn logger(log: &Rc<RefCell<Vec<usize>>>, cascade: Vec<usize>) -> Logger {
    Logger { log: Rc::clone(log), cascade }
}

const SECOND: u64 = 1_000_000_000;

#[test]
fn broadcast_twice_runs_once() {
    let log = Rc::new(RefCell::new(vec![]));
    let mut c: EventContainer<Logger, u32> = EventContainer::new();
    c.insert("user-x", Some(logger(&log, vec![])), EventEnum::User, 1, 0);
    assert_eq!(c.broadcast(1), Some(true));
    assert_eq!(c.broadcast(1), Some(true));
    c.handle_all_events(5);
    assert_eq!(*log.borrow(), vec![1]);
    c.handle_all_events(6);
    assert_eq!(*log.borrow(), vec![1]);
}

#[test]
fn broadcast_of_unknown_event_is_refused() {
    let mut c: EventContainer<Logger, u32> = EventContainer::new();
    assert_eq!(c.broadcast(4), None);
    assert_eq!(c.repeat(4, None), None);
    assert_eq!(c.derepeat(4), None);
    assert!(c.pop_pending().is_empty());
}

#[test]
fn pending_keeps_first_broadcast_order() {
    let log = Rc::new(RefCell::new(vec![]));
    let mut c: EventContainer<Logger, u32> = EventContainer::new();
    c.insert("a", Some(logger(&log, vec![])), EventEnum::User, 1, 0);
    c.insert("b", Some(logger(&log, vec![])), EventEnum::User, 2, 0);
    c.broadcast(2);
    c.broadcast(1);
    c.broadcast(2);
    assert_eq!(c.pop_pending(), vec![2, 1]);
    assert!(c.pop_pending().is_empty());
}

#[test]
fn cascade_runs_in_the_same_pass() {
    let log = Rc::new(RefCell::new(vec![]));
    let mut c: EventContainer<Logger, u32> = EventContainer::new();
    c.insert("a", Some(logger(&log, vec![2, 3])), EventEnum::User, 1, 0);
    c.insert("b", Some(logger(&log, vec![])), EventEnum::User, 2, 0);
    c.insert("c", Some(logger(&log, vec![])), EventEnum::User, 3, 0);
    c.broadcast(1);
    c.handle_all_events(1);
    assert_eq!(*log.borrow(), vec![1, 2, 3]);
    assert_eq!(c.get_state(2).unwrap().invocations, 1);
}

#[test]
fn cascade_cycle_stops_at_depth_bound() {
    let log = Rc::new(RefCell::new(vec![]));
    let mut c: EventContainer<Logger, u32> = EventContainer::new();
    c.insert("a", Some(logger(&log, vec![1])), EventEnum::User, 1, 0);
    c.broadcast(1);
    c.handle_all_events(1);
    assert_eq!(log.borrow().len(), oe_core::event_container::MAX_CASCADE_DEPTH + 1);
}

#[test]
fn cascade_to_unknown_event_is_skipped() {
    let log = Rc::new(RefCell::new(vec![]));
    let mut c: EventContainer<Logger, u32> = EventContainer::new();
    c.insert("a", Some(logger(&log, vec![99])), EventEnum::User, 1, 0);
    c.broadcast(1);
    assert_eq!(c.handle_all_events(1), Some(true));
    assert_eq!(*log.borrow(), vec![1]);
}

#[test]
fn repeated_event_fires_when_interval_passed_until_derepeated() {
    let log = Rc::new(RefCell::new(vec![]));
    let mut h: EventHandler<Logger, u32> = EventHandler::new();
    let id = h.create_event(EventEnum::User, "tick", 1, 0);
    h.set_event_func(id, logger(&log, vec![]), 0);
    assert_eq!(h.repeat_timed_event(id, 2 * SECOND), Some(true));
    let frames = [SECOND, 2 * SECOND, 2 * SECOND + 11, 3 * SECOND, 4 * SECOND + 21, 4 * SECOND + 22];
    for now in frames {
        h.handle_events(now);
        h.update_event_timestamps(now);
    }
    assert_eq!(*log.borrow(), vec![id, id]);
    assert_eq!(h.derepeat_event(id), Some(true));
    h.handle_events(10 * SECOND);
    assert_eq!(log.borrow().len(), 2);
}

#[test]
fn repeat_without_interval_fires_every_pass() {
    let log = Rc::new(RefCell::new(vec![]));
    let mut c: EventContainer<Logger, u32> = EventContainer::new();
    c.insert("a", Some(logger(&log, vec![])), EventEnum::User, 1, 0);
    c.insert("b", Some(logger(&log, vec![])), EventEnum::User, 2, 0);
    c.repeat(2, None);
    c.repeat(1, None);
    c.repeat(2, Some(SECOND));
    assert_eq!(c.get_repeated(), vec![(2, Some(SECOND)), (1, None)]);
    c.handle_all_events(1);
    c.handle_all_events(2);
    assert_eq!(*log.borrow(), vec![1, 1]);
}

#[test]
fn event_without_callback_asks_for_nothing() {
    let mut e: Event<Logger, u32> = Event::new(None, EventEnum::Mouse, 4, 0);
    assert!(e.execute(1, None).is_empty());
    assert_eq!(e.invocations(), 1);
    assert_eq!(e.get_type(), EventEnum::Mouse);
    e.set_type(EventEnum::Keyboard);
    assert_eq!(e.get_type(), EventEnum::Keyboard);
    e.set_active(false);
    assert!(e.execute(5, None).is_empty());
    assert_eq!(e.invocations(), 1);
}

#[test]
fn consume_moves_pending_to_snapshot() {
    let log = Rc::new(RefCell::new(vec![]));
    let mut c: EventContainer<Logger, u32> = EventContainer::new();
    c.insert("a", Some(logger(&log, vec![])), EventEnum::User, 1, 0);
    c.broadcast(1);
    let mut snapshot = c.consume();
    c.broadcast(1);
    snapshot.handle_all_events(3);
    c.take_run_states(&snapshot);
    assert_eq!(*log.borrow(), vec![1]);
    assert_eq!(c.get_state(1).unwrap().invocations, 1);
    assert!(c.get_state(1).unwrap().executed);
    assert_eq!(c.pop_pending(), vec![1]);
}

#[test]
fn categories_use_name_prefixes() {
    let mut h: EventHandler<Logger, u32> = EventHandler::new();
    let u = h.create_event(EventEnum::User, "x", 1, 0);
    let k = h.create_event(EventEnum::Keyboard, "Space+", 2, 0);
    let m = h.create_event(EventEnum::Mouse, "lock", 3, 0);
    let i = h.create_event(EventEnum::Internal, "x", 4, 0);
    assert_eq!(h.get_event_name(u), Some("user-x"));
    assert_eq!(h.get_event_id("keyboard-Space+"), Some(k));
    assert_eq!(h.get_user_event_id("x"), Some(u));
    assert_eq!(h.get_keyboard_event_id("Space+"), Some(k));
    assert_eq!(h.get_mouse_event_id("lock"), Some(m));
    assert_eq!(h.get_internal_event_id("x"), Some(i));
    assert_eq!(h.get_user_events(), vec![u]);
    assert_eq!(h.get_keyboard_events(), vec![k]);
    assert_eq!(h.get_mouse_events(), vec![m]);
    assert_eq!(h.get_internal_events(), vec![i]);
    assert_eq!(h.create_event(EventEnum::User, "x", 5, 0), u);
    assert_eq!(prefixed_name(EventEnum::Mouse, "up"), "mouse-up");
}

#[test]
fn mouse_status_is_stored() {
    let mut h: EventHandler<Logger, u32> = EventHandler::new();
    h.update_mouse_status(MouseCoords { x: 3, y: 4 }, MouseCoords { x: -1, y: 2 });
    assert_eq!(h.mouse_pos(), MouseCoords { x: 3, y: 4 });
    assert_eq!(h.mouse_delta(), MouseCoords { x: -1, y: 2 });
}

#[test]
fn contains_id_scans_the_list() {
    assert!(contains_id(&vec![4, 5, 6], 6));
    assert!(!contains_id(&vec![4, 5, 6], 7));
    assert!(!contains_id(&vec![], 0));
}

#[test]
fn happened_counter_counts_runs_of_the_pass() {
    let log = Rc::new(RefCell::new(vec![]));
    let mut c: EventContainer<Logger, u32> = EventContainer::new();
    c.insert("a", Some(logger(&log, vec![2, 2])), EventEnum::User, 1, 0);
    c.insert("b", Some(logger(&log, vec![])), EventEnum::User, 2, 0);
    c.insert("c", Some(logger(&log, vec![])), EventEnum::User, 3, 0);
    c.broadcast(1);
    c.handle_all_events(1);
    assert_eq!(c.happened_count(1), 1);
    assert_eq!(c.happened_count(2), 2);
    assert_eq!(c.happened_count(3), 0);
    c.handle_all_events(2);
    assert_eq!(c.happened_count(2), 0);
}

#[test]
fn happened_counter_skips_events_that_did_not_fire() {
    let log = Rc::new(RefCell::new(vec![]));
    let mut c: EventContainer<Logger, u32> = EventContainer::new();
    c.insert("slow", Some(logger(&log, vec![])), EventEnum::User, 1, 0);
    c.repeat(1, Some(SECOND));
    c.handle_all_events(5);
    assert_eq!(c.happened_count(1), 0);
    assert!(log.borrow().is_empty());
    c.handle_all_events(SECOND + 11);
    assert_eq!(c.happened_count(1), 1);
}
