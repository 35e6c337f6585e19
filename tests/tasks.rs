use oe_core::named::BaseContainer;
use oe_core::task::{TaskEnum, TaskFuncTrait, TaskInfo, TaskOutput, Task};
use oe_core::task_container::TaskContainer;
use oe_core::task_manager::TaskManager;
use oe_core::timing::{elapsed_ns, is_due, FIRE_MARGIN_NS};
use std::cell::RefCell;
use std::rc::Rc;

#[derive(Clone)]
struct Recorder {
    log: Rc<RefCell<Vec<usize>>>,
    out: TaskOutput,
}

impl TaskFuncTrait<u32> for Recorder {
    fn call(&self, info: &TaskInfo, _data: &Option<u32>) -> TaskOutput {
        self.log.borrow_mut().push(info.id());
        self.out
    }
}

fn recorder(log: &Rc<RefCell<Vec<usize>>>, out: TaskOutput) -> Recorder {
    Recorder { log: Rc::clone(log), out }
}

const SECOND: u64 = 1_000_000_000;

#[test]
fn named_collection_binds_ids_and_names() {
    let mut c: BaseContainer<u32> = BaseContainer::new();
    assert_eq!(c.insert(1, 10, "a"), None);
    assert_eq!(c.insert(2, 20, "b"), None);
    assert_eq!(c.get_id("a"), Some(1));
    assert_eq!(c.get_name(2), Some("b"));
    assert_eq!(c.get(1), Some(&10));
    assert_eq!(c.len(), 2);
    assert!(c.contains_name("b"));
    assert!(!c.contains_name("c"));
    let mut ids = c.ids();
    ids.sort();
    assert_eq!(ids, vec![1, 2]);
}

#[test]
fn named_collection_insert_under_taken_name_orphans_old_id() {
    let mut c: BaseContainer<u32> = BaseContainer::new();
    c.insert(1, 10, "a");
    c.insert(3, 30, "a");
    assert_eq!(c.get_id("a"), Some(3));
    assert!(!c.contains(1));
    assert_eq!(c.get_name(1), None);
    assert_eq!(c.len(), 1);
}

#[test]
fn named_collection_insert_same_id_new_name_frees_old_name() {
    let mut c: BaseContainer<u32> = BaseContainer::new();
    c.insert(1, 10, "a");
    assert_eq!(c.insert(1, 11, "b"), Some(10));
    assert_eq!(c.get_id("a"), None);
    assert_eq!(c.get_id("b"), Some(1));
    assert_eq!(c.get(1), Some(&11));
}

#[test]
fn named_collection_remove_and_no_overwrite() {
    let mut c: BaseContainer<u32> = BaseContainer::new();
    assert!(c.insert_no_overwrite(1, 10, "a"));
    assert!(!c.insert_no_overwrite(2, 20, "a"));
    assert!(!c.contains(2));
    assert_eq!(c.remove_by_name("a"), Some(1));
    assert_eq!(c.remove_by_name("a"), None);
    c.insert(4, 40, "d");
    let removed = c.remove(4);
    assert_eq!(removed, Some((40, "d".to_string())));
    assert_eq!(c.remove(4), None);
    c.insert(5, 50, "e");
    c.clear();
    assert_eq!(c.len(), 0);
    assert_eq!(c.get_id("e"), None);
}

#[test]
fn interval_gating_boundaries() {
    let i = 2 * SECOND;
    assert!(!is_due(i, 0, Some(i)));
    assert!(!is_due(i + FIRE_MARGIN_NS, 0, Some(i)));
    assert!(is_due(i + FIRE_MARGIN_NS + 1, 0, Some(i)));
    assert!(!is_due(i - 1, 0, Some(i)));
    assert!(is_due(0, 5, None));
    assert_eq!(elapsed_ns(3, 5), 0);
    assert_eq!(elapsed_ns(9, 5), 4);
}

#[test]
fn task_execute_respects_interval_and_activity() {
    let log = Rc::new(RefCell::new(vec![]));
    let mut t: Task<Recorder, u32> = Task::new(Some(recorder(&log, TaskOutput::Drop)), TaskEnum::Repeat, 7, 0);
    t.set_interval(Some(2 * SECOND));
    assert_eq!(t.execute(2 * SECOND, 0), TaskOutput::Keep);
    assert_eq!(t.invocations(), 0);
    assert_eq!(t.execute(2 * SECOND + 11, 0), TaskOutput::Drop);
    assert_eq!(t.invocations(), 1);
    assert!(t.executed());
    t.update(2 * SECOND + 11);
    assert!(!t.executed());
    assert_eq!(t.timestamp(), 2 * SECOND + 11);
    t.update(5 * SECOND);
    assert_eq!(t.timestamp(), 2 * SECOND + 11);
    t.set_active(false);
    assert_eq!(t.execute(10 * SECOND, 0), TaskOutput::Keep);
    assert_eq!(*log.borrow(), vec![7]);
}

#[test]
fn task_without_callback_keeps_itself() {
    let mut t: Task<Recorder, u32> = Task::new(None, TaskEnum::Repeat, 3, 0);
    assert_eq!(t.execute(1, 0), TaskOutput::Keep);
    assert_eq!(t.invocations(), 1);
}

#[test]
fn priority_ordering_runs_highest_first() {
    let log = Rc::new(RefCell::new(vec![]));
    let mut c: TaskContainer<Recorder, u32> = TaskContainer::new();
    for (name, id, prio) in [("a", 10usize, 3isize), ("b", 20, 1), ("c", 30, 2)] {
        assert_eq!(c.insert(name, Some(recorder(&log, TaskOutput::Keep)), TaskEnum::Repeat, id, 0), id);
        assert_eq!(c.set_priority(id, prio), Some(true));
    }
    assert_eq!(c.sorted(), vec![10, 30, 20]);
    let removed = c.run_tasks(0, 1);
    assert!(removed.is_empty());
    assert_eq!(*log.borrow(), vec![10, 30, 20]);
}

#[test]
fn equal_priorities_run_by_ascending_id() {
    let log = Rc::new(RefCell::new(vec![]));
    let mut c: TaskContainer<Recorder, u32> = TaskContainer::new();
    c.insert("late", Some(recorder(&log, TaskOutput::Keep)), TaskEnum::Repeat, 9, 0);
    c.insert("early", Some(recorder(&log, TaskOutput::Keep)), TaskEnum::Repeat, 4, 0);
    c.insert("top", Some(recorder(&log, TaskOutput::Keep)), TaskEnum::Repeat, 6, 0);
    c.set_priority(6, -1);
    c.run_tasks(0, 1);
    assert_eq!(*log.borrow(), vec![4, 9, 6]);
}

#[test]
fn once_task_removed_after_one_pass_whatever_it_returns() {
    let log = Rc::new(RefCell::new(vec![]));
    let mut c: TaskContainer<Recorder, u32> = TaskContainer::new();
    c.insert("keep", Some(recorder(&log, TaskOutput::Keep)), TaskEnum::Once, 1, 0);
    c.insert("drop", Some(recorder(&log, TaskOutput::Drop)), TaskEnum::Once, 2, 0);
    let removed = c.run_tasks(0, 1);
    assert_eq!(removed, vec![1, 2]);
}

#[test]
fn once_task_not_yet_due_stays_until_it_fires() {
    let log = Rc::new(RefCell::new(vec![]));
    let mut c: TaskContainer<Recorder, u32> = TaskContainer::new();
    c.insert("later", Some(recorder(&log, TaskOutput::Keep)), TaskEnum::Once, 1, 0);
    c.set_interval(1, Some(SECOND));
    assert!(c.run_tasks(0, 1).is_empty());
    assert!(log.borrow().is_empty());
    assert_eq!(c.run_tasks(0, SECOND + 11), vec![1]);
    assert_eq!(*log.borrow(), vec![1]);
}

#[test]
fn inactive_once_task_is_not_removed() {
    let log = Rc::new(RefCell::new(vec![]));
    let mut c: TaskContainer<Recorder, u32> = TaskContainer::new();
    c.insert("off", Some(recorder(&log, TaskOutput::Keep)), TaskEnum::Once, 1, 0);
    c.set_active(1, false);
    assert!(c.run_tasks(0, 1).is_empty());
    assert_eq!(c.happened_count(1), 0);
}

#[test]
fn repeat_task_keep_stays_drop_goes() {
    let log = Rc::new(RefCell::new(vec![]));
    let mut m: TaskManager<Recorder, u32> = TaskManager::new();
    m.create_task_func("keep", recorder(&log, TaskOutput::Keep), TaskEnum::Repeat, 1, 0);
    m.create_task_func("drop", recorder(&log, TaskOutput::Drop), TaskEnum::Repeat, 2, 0);
    for frame in 1..4u64 {
        let removed = m.run_tasks(0, frame);
        m.update_task_timestamps(frame);
        m.remove_tasks(removed);
        assert_eq!(m.get_task_id("keep"), Some(1));
        assert_eq!(m.get_task_id("drop"), None);
    }
    assert_eq!(*log.borrow(), vec![1, 2, 1, 1]);
    assert_eq!(m.tasks_ref().get_state(1).unwrap().invocations, 3);
}

#[test]
fn insert_under_existing_name_keeps_id_and_kind() {
    let log = Rc::new(RefCell::new(vec![]));
    let mut c: TaskContainer<Recorder, u32> = TaskContainer::new();
    assert_eq!(c.insert("t", Some(recorder(&log, TaskOutput::Keep)), TaskEnum::Repeat, 5, 0), 5);
    assert_eq!(c.insert("t", Some(recorder(&log, TaskOutput::Drop)), TaskEnum::Once, 6, 0), 5);
    assert_eq!(c.len(), 1);
    assert_eq!(c.get_state(5).unwrap().kind, TaskEnum::Repeat);
    assert_eq!(c.run_tasks(0, 1), vec![5]);
    assert_eq!(c.insert_no_overwrite("t", None, TaskEnum::Once, 7, 0), 0);
    assert_eq!(c.insert_no_overwrite("u", None, TaskEnum::Once, 7, 0), 7);
    assert_eq!(c.get_name(7), Some("u"));
}

#[test]
fn setters_report_missing_tasks() {
    let mut c: TaskContainer<Recorder, u32> = TaskContainer::new();
    let log = Rc::new(RefCell::new(vec![]));
    assert_eq!(c.set_interval(1, None), None);
    assert_eq!(c.set_priority(1, 2), None);
    assert_eq!(c.update_task(1, 0), None);
    assert_eq!(c.set_func(1, recorder(&log, TaskOutput::Keep), 3), None);
    assert_eq!(c.set_func_data(1, 3), None);
    c.insert("t", None, TaskEnum::Repeat, 1, 0);
    assert_eq!(c.set_func_data(1, 3), Some(true));
    c.remove(1);
    c.remove(1);
    assert_eq!(c.len(), 0);
    assert!(c.sorted().is_empty());
}

#[test]
fn snapshot_isolation_new_task_waits_for_next_pass() {
    let log = Rc::new(RefCell::new(vec![]));
    let mut m: TaskManager<Recorder, u32> = TaskManager::new();
    m.create_task_func("old", recorder(&log, TaskOutput::Keep), TaskEnum::Repeat, 1, 0);
    let mut snapshot = m.consume_tasks();
    m.create_task_func("new", recorder(&log, TaskOutput::Keep), TaskEnum::Repeat, 2, 0);
    let removed = snapshot.run_tasks(0, 1);
    m.take_run_states(&snapshot);
    m.update_task_timestamps(1);
    m.remove_tasks(removed);
    assert_eq!(*log.borrow(), vec![1]);
    assert_eq!(m.tasks_ref().get_state(1).unwrap().invocations, 1);
    assert_eq!(m.tasks_ref().get_state(1).unwrap().timestamp, 1);
    assert_eq!(m.tasks_ref().get_state(2).unwrap().invocations, 0);
    let mut next = m.consume_tasks();
    next.run_tasks(0, 2);
    assert_eq!(*log.borrow(), vec![1, 1, 2]);
}

struct Check(Rc<RefCell<Vec<(usize, usize, u64, usize)>>>);

impl TaskFuncTrait<u32> for Check {
    fn call(&self, info: &TaskInfo, data: &Option<u32>) -> TaskOutput {
        assert_eq!(info.get_type(), TaskEnum::Repeat);
        self.0.borrow_mut().push((info.id(), info.invocations(), info.deltatime(), info.thread_id()));
        assert_eq!(*data, Some(9));
        TaskOutput::Keep
    }
}

#[test]
fn task_info_reports_the_run() {
    let seen = Rc::new(RefCell::new(vec![]));
    let mut c: TaskContainer<Check, u32> = TaskContainer::new();
    c.insert("t", None, TaskEnum::Repeat, 3, 100);
    c.set_func(3, Check(Rc::clone(&seen)), 9);
    c.run_tasks(4, 350);
    assert_eq!(*seen.borrow(), vec![(3, 1, 250, 4)]);
}

#[test]
fn happened_counter_marks_tasks_that_fired() {
    let log = Rc::new(RefCell::new(vec![]));
    let mut c: TaskContainer<Recorder, u32> = TaskContainer::new();
    c.insert("keep", Some(recorder(&log, TaskOutput::Keep)), TaskEnum::Repeat, 1, 0);
    c.insert("drop", Some(recorder(&log, TaskOutput::Drop)), TaskEnum::Repeat, 2, 0);
    c.insert("slow", Some(recorder(&log, TaskOutput::Keep)), TaskEnum::Repeat, 3, 0);
    c.set_interval(3, Some(SECOND));
    assert_eq!(c.happened_count(1), 0);
    assert_eq!(c.run_tasks(0, 1), vec![2]);
    assert_eq!(c.happened_count(1), 1);
    assert_eq!(c.happened_count(2), 1);
    assert_eq!(c.happened_count(3), 0);
    c.run_tasks(0, 2);
    assert_eq!(c.happened_count(1), 1);
}
#[test]
fn named_collection_contains_names_and_take_put() {
    let mut c: BaseContainer<u32> = BaseContainer::new();
    c.insert(1, 10, "a");
    c.insert(2, 20, "b");
    assert!(c.contains_names(&vec!["a".to_string(), "b".to_string()]));
    assert!(!c.contains_names(&vec!["a".to_string(), "z".to_string()]));
    assert!(c.contains_names(&vec![]));
    assert_eq!(c.take(1), Some(10));
    assert_eq!(c.take(1), None);
    c.put(1, 11);
    assert_eq!(c.get(1), Some(&11));
    assert_eq!(c.get_name(1), Some("a"));
}
