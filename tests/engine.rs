use oe_core::engine::{
    add_task_func, add_task_func_data, broadcast_event, broadcast_event_by_id, consume_events,
    consume_tasks, create_keyboard_event, create_mouse_event, create_task_thread,
    create_user_event, derepeat_event, finish_events, finish_tasks, get_event_name, get_task,
    get_task_name, get_user_event, get_user_events, init, load_world_func, repeat_event,
    repeat_timed_event_by_id, set_event_data, set_event_func, set_event_func_by_id,
    set_task_data, set_task_data_by_id, set_task_interval, set_task_priority, set_title, step,
    update_events, update_tasks, Engine,
};
use oe_core::event::{EventFuncTrait, EventInfo};
use oe_core::settings::DummyWinsys;
use oe_core::task::{TaskEnum, TaskFuncTrait, TaskInfo, TaskOutput};
use oe_core::{keyboard, mouse};
use std::cell::RefCell;
use std::rc::Rc;

#[derive(Clone)]
struct Count(Rc<RefCell<usize>>, TaskOutput);

impl TaskFuncTrait<u32> for Count {
    fn call(&self, _info: &TaskInfo, data: &Option<u32>) -> TaskOutput {
        *self.0.borrow_mut() += 1 + data.unwrap_or(0) as usize;
        self.1
    }
}

#[derive(Clone)]
struct Append(Rc<RefCell<Vec<String>>>);

impl EventFuncTrait<u32> for Append {
    fn call(&self, info: &EventInfo, data: &Option<u32>) -> Vec<usize> {
        self.0.borrow_mut().push(format!("{}:{:?}", info.id(), data));
        vec![]
    }
}

type TestEngine = Engine<Count, u32, Append, u32>;

#[test]
fn end_to_end_five_steps_and_one_log_entry() {
    let mut engine: TestEngine = init(640, 480, "demo");
    let counter = Rc::new(RefCell::new(0));
    let a = add_task_func(&mut engine, 0, "A", Count(Rc::clone(&counter), TaskOutput::Keep), TaskEnum::Repeat, None, 0);
    assert_eq!(a, 1);
    let mut winsys = DummyWinsys;
    for frame in 1..=5u64 {
        step(&mut engine, &mut winsys, frame);
    }
    assert_eq!(*counter.borrow(), 5);

    let log = Rc::new(RefCell::new(vec![]));
    let x = create_user_event(&mut engine, "x", 10);
    assert!(set_event_func_by_id(&mut engine, x, Append(Rc::clone(&log))));
    assert!(broadcast_event_by_id(&mut engine, x));
    assert!(broadcast_event(&mut engine, "user-x"));
    update_events(&mut engine, 11);
    assert_eq!(log.borrow().len(), 1);
}

#[test]
fn step_reports_done_from_window_or_flag() {
    let mut engine: TestEngine = init(1, 1, "t");
    let mut winsys = DummyWinsys;
    assert!(step(&mut engine, &mut winsys, 1));
    assert!(!engine.is_done());
    engine.set_done();
    assert!(engine.is_done());
}

#[test]
fn init_sets_window_and_one_manager() {
    let mut engine: TestEngine = init(640, 480, "demo");
    assert_eq!(engine.task_thread_count(), 1);
    let info = engine.winsys_update_info();
    assert_eq!(info.title, "demo");
    assert_eq!((info.res_x, info.res_y), (640, 480));
    assert!(info.res_changed && info.vsync && !info.use_fullscreen && !info.mouse_locked);
    set_title(&mut engine, "other");
    assert_eq!(engine.winsys_update_info().title, "other");
    assert_eq!(create_task_thread(&mut engine), 1);
    assert_eq!(engine.task_thread_count(), 2);
}

#[test]
fn task_registration_through_engine() {
    let mut engine: TestEngine = init(1, 1, "t");
    let counter = Rc::new(RefCell::new(0));
    let id = add_task_func_data(&mut engine, 0, "t", Count(Rc::clone(&counter), TaskOutput::Keep), 10, TaskEnum::Repeat, Some(5), 0);
    assert_eq!(id, 1);
    assert_eq!(get_task(&engine, 0, "t"), 1);
    assert_eq!(get_task(&engine, 0, "u"), 0);
    assert_eq!(get_task(&engine, 3, "t"), 0);
    assert_eq!(get_task_name(&engine, 0, 1), Some("t".to_string()));
    assert_eq!(get_task_name(&engine, 0, 2), None);
    assert_eq!(add_task_func_data(&mut engine, 4, "x", Count(Rc::clone(&counter), TaskOutput::Keep), 0, TaskEnum::Once, None, 0), 0);
    update_tasks(&mut engine, 3);
    assert_eq!(*counter.borrow(), 0);
    update_tasks(&mut engine, 16);
    assert_eq!(*counter.borrow(), 11);
    assert_eq!(set_task_data(&mut engine, 0, "t", 1), Some(true));
    assert_eq!(set_task_data(&mut engine, 0, "u", 1), None);
    set_task_data_by_id(&mut engine, 0, 1, 2);
    assert!(set_task_interval(&mut engine, 0, 1, None));
    assert!(!set_task_interval(&mut engine, 0, 9, None));
    update_tasks(&mut engine, 17);
    assert_eq!(*counter.borrow(), 14);
    assert!(set_task_priority(&mut engine, 0, 1, 4));
    assert!(!set_task_priority(&mut engine, 1, 1, 4));
    let id2 = add_task_func(&mut engine, 0, "t", Count(Rc::clone(&counter), TaskOutput::Drop), TaskEnum::Once, None, 0);
    assert_eq!(id2, 1);
    update_tasks(&mut engine, 18);
    assert_eq!(*counter.borrow(), 15);
    assert_eq!(get_task(&engine, 0, "t"), 0);
}

#[test]
fn once_task_runs_once_in_engine() {
    let mut engine: TestEngine = init(1, 1, "t");
    let counter = Rc::new(RefCell::new(0));
    add_task_func(&mut engine, 0, "o", Count(Rc::clone(&counter), TaskOutput::Keep), TaskEnum::Once, None, 0);
    update_tasks(&mut engine, 1);
    update_tasks(&mut engine, 2);
    assert_eq!(*counter.borrow(), 1);
}

#[test]
fn event_registration_through_engine() {
    let mut engine: TestEngine = init(1, 1, "t");
    let log = Rc::new(RefCell::new(vec![]));
    let x = create_user_event(&mut engine, "x", 0);
    let k = create_keyboard_event(&mut engine, "Space+", 0);
    let m = create_mouse_event(&mut engine, "lock", 0);
    assert_eq!((x, k, m), (1, 2, 3));
    assert_eq!(get_user_event(&engine, "x"), x);
    assert_eq!(get_user_event(&engine, "y"), 0);
    assert_eq!(get_user_events(&engine), vec![x]);
    assert_eq!(keyboard::get_event(&engine, "Space+"), k);
    assert_eq!(keyboard::get_events(&engine), vec![k]);
    assert_eq!(mouse::get_event(&engine, "lock"), m);
    assert_eq!(mouse::get_events(&engine), vec![m]);
    assert_eq!(get_event_name(&engine, k), Some("keyboard-Space+".to_string()));
    assert_eq!(get_event_name(&engine, 9), None);
    assert!(set_event_func(&mut engine, "keyboard-Space+", Append(Rc::clone(&log))));
    assert!(!set_event_func(&mut engine, "keyboard-Enter", Append(Rc::clone(&log))));
    assert!(set_event_data(&mut engine, "keyboard-Space+", 7));
    assert!(repeat_event(&mut engine, "keyboard-Space+"));
    assert!(!repeat_event(&mut engine, "nothing"));
    update_events(&mut engine, 1);
    update_events(&mut engine, 2);
    assert!(derepeat_event(&mut engine, "keyboard-Space+"));
    update_events(&mut engine, 3);
    assert_eq!(*log.borrow(), vec!["2:Some(7)".to_string(), "2:Some(7)".to_string()]);
    assert!(repeat_timed_event_by_id(&mut engine, k, 10));
    assert!(!broadcast_event(&mut engine, "user-y"));
}

#[test]
fn mouse_lock_broadcasts_lock_events() {
    let mut engine: TestEngine = init(1, 1, "t");
    let log = Rc::new(RefCell::new(vec![]));
    assert!(!mouse::lock(&mut engine));
    assert!(engine.winsys_update_info().mouse_locked);
    let l = create_mouse_event(&mut engine, "lock", 0);
    let u = create_mouse_event(&mut engine, "unlock", 0);
    set_event_func_by_id(&mut engine, l, Append(Rc::clone(&log)));
    set_event_func_by_id(&mut engine, u, Append(Rc::clone(&log)));
    assert!(mouse::toggle_lock(&mut engine));
    assert!(!engine.winsys_update_info().mouse_locked);
    update_events(&mut engine, 1);
    assert!(mouse::set_lock(&mut engine, true));
    update_events(&mut engine, 2);
    assert!(mouse::unlock(&mut engine));
    assert_eq!(*log.borrow(), vec![format!("{}:None", u), format!("{}:None", l)]);
}

#[test]
fn load_world_registers_internal_event() {
    let mut engine: TestEngine = init(1, 1, "t");
    let log = Rc::new(RefCell::new(vec![]));
    assert!(load_world_func(&mut engine, "scene.csl", Append(Rc::clone(&log)), 0));
    let id = engine.event_handler().get_internal_event_id("load-scene.csl").unwrap();
    assert!(broadcast_event_by_id(&mut engine, id));
    update_events(&mut engine, 1);
    assert_eq!(log.borrow().len(), 1);
}

#[test]
fn snapshot_passes_through_engine() {
    let mut engine: TestEngine = init(1, 1, "t");
    let counter = Rc::new(RefCell::new(0));
    add_task_func(&mut engine, 0, "a", Count(Rc::clone(&counter), TaskOutput::Keep), TaskEnum::Repeat, None, 0);
    let mut pass = consume_tasks(&engine, 0).unwrap();
    assert!(consume_tasks(&engine, 1).is_none());
    add_task_func(&mut engine, 0, "b", Count(Rc::clone(&counter), TaskOutput::Keep), TaskEnum::Repeat, None, 0);
    let removed = pass.run_tasks(0, 5);
    assert!(finish_tasks(&mut engine, 0, &pass, removed, 5));
    assert_eq!(*counter.borrow(), 1);
    let m = engine.task_manager(0).unwrap();
    assert_eq!(m.tasks_ref().get_state(1).unwrap().invocations, 1);
    assert_eq!(m.tasks_ref().get_state(1).unwrap().timestamp, 5);
    assert_eq!(m.tasks_ref().get_state(2).unwrap().invocations, 0);

    let log = Rc::new(RefCell::new(vec![]));
    let e = create_user_event(&mut engine, "e", 0);
    set_event_func_by_id(&mut engine, e, Append(Rc::clone(&log)));
    broadcast_event_by_id(&mut engine, e);
    let mut events = consume_events(&mut engine);
    broadcast_event_by_id(&mut engine, e);
    events.handle_all_events(6);
    finish_events(&mut engine, &events, 6);
    assert_eq!(log.borrow().len(), 1);
    let state = engine.event_handler().events_ref().get_state(e).unwrap();
    assert_eq!((state.invocations, state.timestamp, state.executed), (1, 6, false));
    update_events(&mut engine, 7);
    assert_eq!(log.borrow().len(), 2);
}

#[test]
fn payload_reaches_the_callback() {
    let mut engine: TestEngine = init(1, 1, "t");
    let counter = Rc::new(RefCell::new(0));
    add_task_func(&mut engine, 0, "a", Count(Rc::clone(&counter), TaskOutput::Keep), TaskEnum::Repeat, None, 0);
    set_task_data_by_id(&mut engine, 0, 1, 41);
    update_tasks(&mut engine, 1);
    assert_eq!(*counter.borrow(), 42);

    let log = Rc::new(RefCell::new(vec![]));
    let e = create_user_event(&mut engine, "e", 0);
    assert!(oe_core::engine::set_event_func_data_by_id(&mut engine, e, Append(Rc::clone(&log)), 3));
    broadcast_event_by_id(&mut engine, e);
    update_events(&mut engine, 2);
    assert!(oe_core::engine::set_event_data_by_id(&mut engine, e, 4));
    broadcast_event_by_id(&mut engine, e);
    update_events(&mut engine, 3);
    assert!(oe_core::engine::set_event_func_data(&mut engine, "user-e", Append(Rc::clone(&log)), 5));
    broadcast_event_by_id(&mut engine, e);
    update_events(&mut engine, 4);
    assert!(!oe_core::engine::set_event_data_by_id(&mut engine, 77, 4));
    assert_eq!(*log.borrow(), vec![format!("{e}:Some(3)"), format!("{e}:Some(4)"), format!("{e}:Some(5)")]);
}

#[test]
fn engine_accessors_report_settings() {
    let engine: TestEngine = init(3, 4, "w");
    assert_eq!(engine.winsys_init_info().requested_backend, oe_core::settings::WinsysBackend::Angle);
    assert!(!engine.renderer_update_info().use_wireframe);
    assert!(engine.task_manager(0).is_some());
    assert!(engine.task_manager(1).is_none());
    assert_eq!(engine.event_handler().get_user_events(), Vec::<usize>::new());
    assert_eq!(oe_core::engine::get_event_id(&engine, "user-x"), None);
}
