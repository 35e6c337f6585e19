//! The engine context: every task manager, the event handler, the id
//! counters and the window settings, with the registration calls and the
//! frame driver.

use crate::event::{event_after_update, event_fires, EventEnum, EventFuncTrait, EventState};
use crate::event_container::{event_fired, event_progressed, events_progressed};
use crate::event_container::EventContainer;
use crate::event_handler::{stored_name, EventHandler};
use crate::named::id_of;
use crate::settings::{
    RendererUpdateInfo, WinsysBackend, WinsysBaseTrait, WinsysInitInfo, WinsysUpdateInfo,
};
use crate::task::{task_after_update, task_fires, TaskEnum, TaskFuncTrait, TaskOutput, TaskState};
use crate::task_container::{
    lemma_removal_list_members, new_task_state, outputs_fit, removal_list, run_removes,
    task_after_pass, TaskContainer,
};
use crate::task_manager::TaskManager;
use vstd::prelude::*;

verus! {

/// A manager that belongs in an engine whose next task id is `next`: well
/// formed, and every id it holds issued already.
pub open spec fn manager_ok<F, D>(m: TaskManager<F, D>, next: usize) -> bool {
    &&& m.wf()
    &&& forall|id: usize| #[trigger] m.tasks().contains_key(id) ==> 0 < id < next
}

pub struct Engine<TF, TD, EF, ED> {
    task_managers_: Vec<TaskManager<TF, TD>>,
    event_handler_: EventHandler<EF, ED>,
    next_task_id_: usize,
    next_event_id_: usize,
    winsys_init_info_: WinsysInitInfo,
    winsys_update_info_: WinsysUpdateInfo,
    renderer_update_info_: RendererUpdateInfo,
    done_: bool,
}

impl<TF, TD, EF, ED> Engine<TF, TD, EF, ED> {
    /// The task managers; index 0 is the default one.
    pub closed spec fn managers(&self) -> Seq<TaskManager<TF, TD>> {
        self.task_managers_@
    }

    pub closed spec fn handler(&self) -> EventHandler<EF, ED> {
        self.event_handler_
    }

    /// The id that the next task gets; 0 is never an id.
    pub closed spec fn next_task_id(&self) -> usize {
        self.next_task_id_
    }

    /// The id that the next event gets; 0 is never an id.
    pub closed spec fn next_event_id(&self) -> usize {
        self.next_event_id_
    }

    pub closed spec fn update_info(&self) -> WinsysUpdateInfo {
        self.winsys_update_info_
    }

    pub closed spec fn spec_done(&self) -> bool {
        self.done_
    }

    pub closed spec fn init_info(&self) -> WinsysInitInfo {
        self.winsys_init_info_
    }

    pub closed spec fn renderer_info(&self) -> RendererUpdateInfo {
        self.renderer_update_info_
    }

    pub open spec fn wf(&self) -> bool {
        &&& self.managers().len() >= 1
        &&& forall|i: int|
            0 <= i < self.managers().len() ==> #[trigger] manager_ok(
                self.managers()[i],
                self.next_task_id(),
            )
        &&& self.handler().wf()
        &&& forall|id: usize| #[trigger]
            self.handler().events().contains_key(id) ==> 0 < id < self.next_event_id()
        &&& self.next_task_id() >= 1
        &&& self.next_event_id() >= 1
    }

    /// Everything but the event handler is as in `other`.
    pub open spec fn same_tasks_and_settings(&self, other: &Self) -> bool {
        &&& self.managers() == other.managers()
        &&& self.next_task_id() == other.next_task_id()
        &&& self.update_info() == other.update_info()
        &&& self.spec_done() == other.spec_done()
    }

    /// Everything but the task managers is as in `other`.
    pub open spec fn same_events_and_settings(&self, other: &Self) -> bool {
        &&& self.handler() == other.handler()
        &&& self.next_event_id() == other.next_event_id()
        &&& self.update_info() == other.update_info()
        &&& self.spec_done() == other.spec_done()
    }

    pub fn task_thread_count(&self) -> (r: usize)
        ensures
            r == self.managers().len(),
    {
        self.task_managers_.len()
    }

    /// The task manager `thread_id`, to read.
    pub fn task_manager(&self, thread_id: usize) -> (r: Option<&TaskManager<TF, TD>>)
        ensures
            match r {
                Some(m) => thread_id < self.managers().len() && *m == self.managers()[thread_id as int],
                None => thread_id >= self.managers().len(),
            },
    {
        if thread_id < self.task_managers_.len() {
            Some(&self.task_managers_[thread_id])
        } else {
            None
        }
    }

    /// The event handler, to read.
    pub fn event_handler(&self) -> (r: &EventHandler<EF, ED>)
        ensures
            *r == self.handler(),
    {
        &self.event_handler_
    }

    pub fn winsys_update_info(&self) -> (r: &WinsysUpdateInfo)
        ensures
            *r == self.update_info(),
    {
        &self.winsys_update_info_
    }

    pub fn winsys_init_info(&self) -> (r: &WinsysInitInfo)
        ensures
            *r == self.init_info(),
    {
        &self.winsys_init_info_
    }

    pub fn renderer_update_info(&self) -> (r: &RendererUpdateInfo)
        ensures
            *r == self.renderer_info(),
    {
        &self.renderer_update_info_
    }

    /// Asks the frame loop to stop after the current frame.
    pub fn set_done(&mut self)
        requires
            old(self).wf(),
        ensures
            final(self).wf(),
            final(self).spec_done(),
            final(self).managers() == old(self).managers(),
            final(self).handler() == old(self).handler(),
            final(self).next_task_id() == old(self).next_task_id(),
            final(self).next_event_id() == old(self).next_event_id(),
            final(self).update_info() == old(self).update_info(),
    {
        self.done_ = true;
    }

    pub fn is_done(&self) -> (r: bool)
        ensures
            r == self.spec_done(),
    {
        self.done_
    }

    fn take_manager(&mut self, thread_id: usize) -> (r: TaskManager<TF, TD>)
        requires
            thread_id < old(self).managers().len(),
        ensures
            r == old(self).managers()[thread_id as int],
            final(self).managers() == old(self).managers().remove(thread_id as int),
            final(self).handler() == old(self).handler(),
            final(self).next_task_id() == old(self).next_task_id(),
            final(self).next_event_id() == old(self).next_event_id(),
            final(self).update_info() == old(self).update_info(),
            final(self).spec_done() == old(self).spec_done(),
    {
        self.task_managers_.remove(thread_id)
    }

    fn put_manager(&mut self, thread_id: usize, m: TaskManager<TF, TD>)
        requires
            thread_id <= old(self).managers().len(),
        ensures
            final(self).managers() == old(self).managers().insert(thread_id as int, m),
            final(self).handler() == old(self).handler(),
            final(self).next_task_id() == old(self).next_task_id(),
            final(self).next_event_id() == old(self).next_event_id(),
            final(self).update_info() == old(self).update_info(),
            final(self).spec_done() == old(self).spec_done(),
    {
        self.task_managers_.insert(thread_id, m);
    }
}

/// The id under which a registration of `name` stands in a manager whose
/// names are `names`: the id that has the name already, or `next`.
pub open spec fn registered_id(names: Map<usize, Seq<char>>, name: Seq<char>, next: usize) -> usize {
    match id_of(names, name) {
        Some(existing) => existing,
        None => next,
    }
}

/// The state of the task that a registration of `name` leaves: the task
/// that has the name keeps its state, a new one starts fresh; both take
/// `interval`.
pub open spec fn registered_task(
    tasks: Map<usize, TaskState>,
    names: Map<usize, Seq<char>>,
    name: Seq<char>,
    next: usize,
    kind: TaskEnum,
    interval: Option<u64>,
    now: u64,
) -> TaskState {
    let id = registered_id(names, name, next);
    let base = if id_of(names, name) is Some {
        tasks[id]
    } else {
        new_task_state(id, kind, now)
    };
    TaskState { interval, ..base }
}

/// The names after a registration of `name`.
pub open spec fn registered_names(names: Map<usize, Seq<char>>, name: Seq<char>, next: usize) -> Map<
    usize,
    Seq<char>,
> {
    if id_of(names, name) is Some {
        names
    } else {
        names.insert(next, name)
    }
}

/// The engine that `init` builds: the event handler and one task manager,
/// with a window of `x` by `y` pixels titled `title`.
pub fn init<TF, TD, EF, ED>(x: u32, y: u32, title: &str) -> (r: Engine<TF, TD, EF, ED>)
    ensures
        r.wf(),
        r.managers().len() == 1,
        r.managers()[0].tasks() == Map::<usize, TaskState>::empty(),
        r.handler().events().dom() == Set::<usize>::empty(),
        r.next_task_id() == 1,
        r.next_event_id() == 1,
        r.update_info().title@ == title@,
        r.update_info().res_x == x,
        r.update_info().res_y == y,
        r.update_info().res_changed,
        !r.update_info().use_fullscreen,
        r.update_info().vsync,
        !r.update_info().mouse_locked,
        r.init_info().requested_backend == WinsysBackend::Angle,
        r.renderer_info() == RendererUpdateInfo::spec_default(),
        !r.spec_done(),
{
    let mut managers: Vec<TaskManager<TF, TD>> = Vec::new();
    managers.push(TaskManager::new());
    let r = Engine {
        task_managers_: managers,
        event_handler_: EventHandler::new(),
        next_task_id_: 1,
        next_event_id_: 1,
        winsys_init_info_: WinsysInitInfo { requested_backend: WinsysBackend::Angle },
        winsys_update_info_: WinsysUpdateInfo {
            title: title.to_owned(),
            res_x: x,
            res_y: y,
            res_changed: true,
            use_fullscreen: false,
            vsync: true,
            mouse_locked: false,
        },
        renderer_update_info_: RendererUpdateInfo::default(),
        done_: false,
    };
    assert(r.handler().events().dom() =~= Set::<usize>::empty());
    r
}

pub fn set_title<TF, TD, EF, ED>(engine: &mut Engine<TF, TD, EF, ED>, name: &str)
    requires
        old(engine).wf(),
    ensures
        final(engine).wf(),
        final(engine).update_info().title@ == name@,
        final(engine).update_info() == (WinsysUpdateInfo {
            title: final(engine).update_info().title,
            ..old(engine).update_info()
        }),
        final(engine).managers() == old(engine).managers(),
        final(engine).handler() == old(engine).handler(),
        final(engine).next_task_id() == old(engine).next_task_id(),
        final(engine).next_event_id() == old(engine).next_event_id(),
{
    engine.winsys_update_info_.title = name.to_owned();
}

/// Adds a task manager and returns its index.
pub fn create_task_thread<TF, TD, EF, ED>(engine: &mut Engine<TF, TD, EF, ED>) -> (r: usize)
    requires
        old(engine).wf(),
        old(engine).managers().len() < usize::MAX,
    ensures
        final(engine).wf(),
        final(engine).same_events_and_settings(old(engine)),
        r == old(engine).managers().len(),
        final(engine).managers().len() == r + 1,
        final(engine).managers().take(r as int) == old(engine).managers(),
        final(engine).managers()[r as int].tasks() == Map::<usize, TaskState>::empty(),
        final(engine).next_task_id() == old(engine).next_task_id(),
{
    let m = TaskManager::new();
    engine.task_managers_.push(m);
    assert(engine.managers().take(old(engine).managers().len() as int) =~= old(engine).managers());
    engine.task_managers_.len() - 1
}

/// Registers a task under `task_name` in the manager `thread_id`, with
/// `func`, its payload `data` and `interval`. A task that has the name
/// already keeps its id, kind and run state. The result is the task's id,
/// or 0 where there is no such manager or no id is left.
pub fn add_task_func_data<TF, TD, EF, ED>(
    engine: &mut Engine<TF, TD, EF, ED>,
    thread_id: usize,
    task_name: &str,
    func: TF,
    data: TD,
    type_in: TaskEnum,
    interval: Option<u64>,
    now: u64,
) -> (r: usize)
    requires
        old(engine).wf(),
    ensures
        final(engine).wf(),
        final(engine).same_events_and_settings(old(engine)),
        (thread_id >= old(engine).managers().len() || old(engine).next_task_id() == usize::MAX)
            ==> r == 0 && final(engine).managers() == old(engine).managers()
            && final(engine).next_task_id() == old(engine).next_task_id(),
        thread_id < old(engine).managers().len() && old(engine).next_task_id() < usize::MAX ==> (
        r == registered_id(
            old(engine).managers()[thread_id as int].names(),
            task_name@,
            old(engine).next_task_id(),
        ) && registered(*old(engine), *final(engine), thread_id, task_name@, type_in, interval, now)
            && final(engine).managers()[thread_id as int].funcs()[r] == Some(func)
            && final(engine).managers()[thread_id as int].payloads()[r] == Some(data)),
        thread_id < old(engine).managers().len() && old(engine).next_task_id() < usize::MAX ==> r >= 1,
        thread_id < old(engine).managers().len() && old(engine).next_task_id() < usize::MAX && id_of(
            old(engine).managers()[thread_id as int].names(),
            task_name@,
        ) is None ==> forall|j: int, id: usize|
            0 <= j < old(engine).managers().len() && #[trigger] old(engine).managers()[j].tasks().contains_key(id)
                ==> id < r,
{
    if thread_id >= engine.task_managers_.len() || engine.next_task_id_ == usize::MAX {
        return 0;
    }
    let next = engine.next_task_id_;
    let mut m = engine.take_manager(thread_id);
    proof {
        assert(manager_ok(old(engine).managers()[thread_id as int], next));
    }
    let ghost m0 = m;
    let task_id = m.create_task(task_name, type_in, next, now);
    let ghost m1 = m;
    m.set_task_func(task_id, func, data);
    m.set_task_interval(task_id, interval);
    proof {
        let want = registered_task(m0.tasks(), m0.names(), task_name@, next, type_in, interval, now);
        assert(m.tasks() =~= m0.tasks().insert(task_id, want));
    }
    engine.put_manager(thread_id, m);
    if task_id == next {
        engine.next_task_id_ = next + 1;
    }
    proof {
        lemma_put_back(old(engine).managers(), engine.managers(), thread_id as int, m);
        lemma_managers_ok_grow(*old(engine), *engine, thread_id as int);
    }
    proof {
        assert forall|j: int, id: usize|
            0 <= j < old(engine).managers().len() && #[trigger] old(engine).managers()[j].tasks().contains_key(id)
                implies id < next by {
            assert(manager_ok(old(engine).managers()[j], next));
        }
    }
    task_id
}

/// `after` is `before` with a registration of `name` in the manager
/// `thread_id`: its tasks and names changed as `registered_task` and
/// `registered_names` say, the other managers kept, the counter advanced
/// where a new id was taken.
pub open spec fn registered<TF, TD, EF, ED>(
    before: Engine<TF, TD, EF, ED>,
    after: Engine<TF, TD, EF, ED>,
    thread_id: usize,
    name: Seq<char>,
    kind: TaskEnum,
    interval: Option<u64>,
    now: u64,
) -> bool {
    let m0 = before.managers()[thread_id as int];
    let next = before.next_task_id();
    let id = registered_id(m0.names(), name, next);
    &&& after.managers().len() == before.managers().len()
    &&& forall|j: int|
        0 <= j < before.managers().len() && j != thread_id ==> #[trigger] after.managers()[j]
            == before.managers()[j]
    &&& after.managers()[thread_id as int].tasks() == m0.tasks().insert(
        id,
        registered_task(m0.tasks(), m0.names(), name, next, kind, interval, now),
    )
    &&& after.managers()[thread_id as int].names() == registered_names(m0.names(), name, next)
    &&& after.next_task_id() == (if id_of(m0.names(), name) is Some {
        next
    } else {
        (next + 1) as usize
    })
}

proof fn lemma_put_back<F, D>(
    before: Seq<TaskManager<F, D>>,
    after: Seq<TaskManager<F, D>>,
    i: int,
    m: TaskManager<F, D>,
)
    requires
        0 <= i < before.len(),
        after == before.remove(i).insert(i, m),
    ensures
        after == before.update(i, m),
{
    assert(after =~= before.update(i, m));
}

proof fn lemma_managers_ok_grow<TF, TD, EF, ED>(
    before: Engine<TF, TD, EF, ED>,
    after: Engine<TF, TD, EF, ED>,
    i: int,
)
    requires
        before.wf(),
        0 <= i < before.managers().len(),
        after.managers().len() == before.managers().len(),
        forall|j: int|
            0 <= j < before.managers().len() && j != i ==> #[trigger] after.managers()[j]
                == before.managers()[j],
        manager_ok(after.managers()[i], after.next_task_id()),
        after.next_task_id() >= before.next_task_id(),
        after.handler() == before.handler(),
        after.next_event_id() == before.next_event_id(),
    ensures
        after.wf(),
{
    assert forall|j: int| 0 <= j < after.managers().len() implies #[trigger] manager_ok(
        after.managers()[j],
        after.next_task_id(),
    ) by {
        if j != i {
            assert(manager_ok(before.managers()[j], before.next_task_id()));
        }
    }
}

/// The managers of `after` hold the same tasks and names as those of
/// `before`; only callbacks or payloads may differ.
pub open spec fn same_task_views<F, D>(
    before: Seq<TaskManager<F, D>>,
    after: Seq<TaskManager<F, D>>,
) -> bool {
    &&& after.len() == before.len()
    &&& forall|j: int|
        0 <= j < before.len() ==> (#[trigger] after[j]).tasks() == before[j].tasks()
            && after[j].names() == before[j].names()
}

/// `after` differs from `before` in the manager `thread_id` alone, and there
/// only in the task `task_id`, whose state becomes `state`.
pub open spec fn one_task_changed<F, D>(
    before: Seq<TaskManager<F, D>>,
    after: Seq<TaskManager<F, D>>,
    thread_id: int,
    task_id: usize,
    state: TaskState,
) -> bool {
    &&& after.len() == before.len()
    &&& forall|j: int|
        0 <= j < before.len() && j != thread_id ==> #[trigger] after[j] == before[j]
    &&& after[thread_id].tasks() == before[thread_id].tasks().insert(task_id, state)
    &&& after[thread_id].names() == before[thread_id].names()
}

/// Registers a task under `task_name` in the manager `thread_id` with
/// `func`, no payload, and `interval`; as `add_task_func_data` otherwise.
pub fn add_task_func<TF, TD, EF, ED>(
    engine: &mut Engine<TF, TD, EF, ED>,
    thread_id: usize,
    task_name: &str,
    func: TF,
    type_in: TaskEnum,
    interval: Option<u64>,
    now: u64,
) -> (r: usize)
    requires
        old(engine).wf(),
    ensures
        final(engine).wf(),
        final(engine).same_events_and_settings(old(engine)),
        (thread_id >= old(engine).managers().len() || old(engine).next_task_id() == usize::MAX)
            ==> r == 0 && final(engine).managers() == old(engine).managers()
            && final(engine).next_task_id() == old(engine).next_task_id(),
        thread_id < old(engine).managers().len() && old(engine).next_task_id() < usize::MAX ==> (
        r == registered_id(
            old(engine).managers()[thread_id as int].names(),
            task_name@,
            old(engine).next_task_id(),
        ) && registered(*old(engine), *final(engine), thread_id, task_name@, type_in, interval, now)
            && final(engine).managers()[thread_id as int].funcs()[r] == Some(func)
            && final(engine).managers()[thread_id as int].payloads()[r] == None::<TD>),
        thread_id < old(engine).managers().len() && old(engine).next_task_id() < usize::MAX ==> r >= 1,
        thread_id < old(engine).managers().len() && old(engine).next_task_id() < usize::MAX && id_of(
            old(engine).managers()[thread_id as int].names(),
            task_name@,
        ) is None ==> forall|j: int, id: usize|
            0 <= j < old(engine).managers().len() && #[trigger] old(engine).managers()[j].tasks().contains_key(id)
                ==> id < r,
{
    if thread_id >= engine.task_managers_.len() || engine.next_task_id_ == usize::MAX {
        return 0;
    }
    let next = engine.next_task_id_;
    let mut m = engine.take_manager(thread_id);
    proof {
        assert(manager_ok(old(engine).managers()[thread_id as int], next));
    }
    let ghost m0 = m;
    let task_id = m.create_task_func(task_name, func, type_in, next, now);
    m.set_task_interval(task_id, interval);
    proof {
        let want = registered_task(m0.tasks(), m0.names(), task_name@, next, type_in, interval, now);
        assert(m.tasks() =~= m0.tasks().insert(task_id, want));
    }
    engine.put_manager(thread_id, m);
    if task_id == next {
        engine.next_task_id_ = next + 1;
    }
    proof {
        lemma_put_back(old(engine).managers(), engine.managers(), thread_id as int, m);
        lemma_managers_ok_grow(*old(engine), *engine, thread_id as int);
    }
    proof {
        assert forall|j: int, id: usize|
            0 <= j < old(engine).managers().len() && #[trigger] old(engine).managers()[j].tasks().contains_key(id)
                implies id < next by {
            assert(manager_ok(old(engine).managers()[j], next));
        }
    }
    task_id
}

/// Gives the task `task_id` of the manager `thread_id` the payload `data`;
/// nothing happens where there is no such task.
pub fn set_task_data_by_id<TF, TD, EF, ED>(
    engine: &mut Engine<TF, TD, EF, ED>,
    thread_id: usize,
    task_id: usize,
    data: TD,
)
    requires
        old(engine).wf(),
    ensures
        final(engine).wf(),
        final(engine).same_events_and_settings(old(engine)),
        final(engine).next_task_id() == old(engine).next_task_id(),
        same_task_views(old(engine).managers(), final(engine).managers()),
        thread_id < old(engine).managers().len() && old(engine).managers()[thread_id as int].tasks().contains_key(task_id)
            ==> final(engine).managers()[thread_id as int].payloads()[task_id] == Some(data),
        forall|j: int|
            0 <= j < old(engine).managers().len() ==> (#[trigger] final(engine).managers()[j]).funcs()
                == old(engine).managers()[j].funcs(),
        forall|j: int|
            0 <= j < old(engine).managers().len() && j != thread_id ==> (#[trigger] final(engine).managers()[j]).payloads() == old(engine).managers()[j].payloads(),
        thread_id < old(engine).managers().len() ==> final(engine).managers()[thread_id as int].payloads()
            == (if old(engine).managers()[thread_id as int].tasks().contains_key(task_id) {
            old(engine).managers()[thread_id as int].payloads().insert(task_id, Some(data))
        } else {
            old(engine).managers()[thread_id as int].payloads()
        }),
{
    if thread_id >= engine.task_managers_.len() {
        return;
    }
    let mut m = engine.take_manager(thread_id);
    proof {
        assert(manager_ok(old(engine).managers()[thread_id as int], engine.next_task_id()));
    }
    m.set_task_data(task_id, data);
    engine.put_manager(thread_id, m);
    proof {
        lemma_put_back(old(engine).managers(), engine.managers(), thread_id as int, m);
        lemma_managers_ok_grow(*old(engine), *engine, thread_id as int);
    }
}

/// Gives the task named `task_name` of the manager `thread_id` the payload
/// `data`: `Some(true)` where there is such a task, `None` otherwise.
pub fn set_task_data<TF, TD, EF, ED>(
    engine: &mut Engine<TF, TD, EF, ED>,
    thread_id: usize,
    task_name: &str,
    data: TD,
) -> (r: Option<bool>)
    requires
        old(engine).wf(),
    ensures
        final(engine).wf(),
        final(engine).same_events_and_settings(old(engine)),
        final(engine).next_task_id() == old(engine).next_task_id(),
        same_task_views(old(engine).managers(), final(engine).managers()),
        r == (if thread_id < old(engine).managers().len() && id_of(
            old(engine).managers()[thread_id as int].names(),
            task_name@,
        ) is Some {
            Some(true)
        } else {
            None::<bool>
        }),
        r is Some ==> final(engine).managers()[thread_id as int].payloads()[id_of(
            old(engine).managers()[thread_id as int].names(),
            task_name@,
        )->Some_0] == Some(data),
        forall|j: int|
            0 <= j < old(engine).managers().len() ==> (#[trigger] final(engine).managers()[j]).funcs()
                == old(engine).managers()[j].funcs(),
        forall|j: int|
            0 <= j < old(engine).managers().len() && j != thread_id ==> (#[trigger] final(engine).managers()[j]).payloads() == old(engine).managers()[j].payloads(),
        thread_id < old(engine).managers().len() ==> final(engine).managers()[thread_id as int].payloads()
            == (if id_of(old(engine).managers()[thread_id as int].names(), task_name@) is Some {
            old(engine).managers()[thread_id as int].payloads().insert(id_of(old(engine).managers()[thread_id as int].names(), task_name@)->Some_0, Some(data))
        } else {
            old(engine).managers()[thread_id as int].payloads()
        }),
{
    if thread_id >= engine.task_managers_.len() {
        return None;
    }
    let mut m = engine.take_manager(thread_id);
    proof {
        assert(manager_ok(old(engine).managers()[thread_id as int], engine.next_task_id()));
    }
    let r = match m.get_task_id(task_name) {
        Some(task_id) => {
            m.set_task_data(task_id, data);
            Some(true)
        },
        None => None,
    };
    engine.put_manager(thread_id, m);
    proof {
        lemma_put_back(old(engine).managers(), engine.managers(), thread_id as int, m);
        lemma_managers_ok_grow(*old(engine), *engine, thread_id as int);
    }
    r
}

/// Sets the interval of the task `task_id` of the manager `thread_id`;
/// false where there is no such task.
pub fn set_task_interval<TF, TD, EF, ED>(
    engine: &mut Engine<TF, TD, EF, ED>,
    thread_id: usize,
    task_id: usize,
    interval: Option<u64>,
) -> (r: bool)
    requires
        old(engine).wf(),
    ensures
        final(engine).wf(),
        final(engine).same_events_and_settings(old(engine)),
        final(engine).next_task_id() == old(engine).next_task_id(),
        r == (thread_id < old(engine).managers().len() && old(engine).managers()[thread_id as int].tasks().contains_key(task_id)),
        r ==> one_task_changed(
            old(engine).managers(),
            final(engine).managers(),
            thread_id as int,
            task_id,
            TaskState { interval, ..old(engine).managers()[thread_id as int].tasks()[task_id] },
        ),
        !r ==> same_task_views(old(engine).managers(), final(engine).managers()),
{
    if thread_id >= engine.task_managers_.len() {
        return false;
    }
    let mut m = engine.take_manager(thread_id);
    proof {
        assert(manager_ok(old(engine).managers()[thread_id as int], engine.next_task_id()));
    }
    let r = m.set_task_interval(task_id, interval).is_some();
    engine.put_manager(thread_id, m);
    proof {
        lemma_put_back(old(engine).managers(), engine.managers(), thread_id as int, m);
        lemma_managers_ok_grow(*old(engine), *engine, thread_id as int);
    }
    r
}

/// Sets the priority of the task `task_id` of the manager `thread_id`;
/// false where there is no such task.
pub fn set_task_priority<TF, TD, EF, ED>(
    engine: &mut Engine<TF, TD, EF, ED>,
    thread_id: usize,
    task_id: usize,
    priority: isize,
) -> (r: bool)
    requires
        old(engine).wf(),
    ensures
        final(engine).wf(),
        final(engine).same_events_and_settings(old(engine)),
        final(engine).next_task_id() == old(engine).next_task_id(),
        r == (thread_id < old(engine).managers().len() && old(engine).managers()[thread_id as int].tasks().contains_key(task_id)),
        r ==> one_task_changed(
            old(engine).managers(),
            final(engine).managers(),
            thread_id as int,
            task_id,
            TaskState { priority, ..old(engine).managers()[thread_id as int].tasks()[task_id] },
        ),
        !r ==> same_task_views(old(engine).managers(), final(engine).managers()),
{
    if thread_id >= engine.task_managers_.len() {
        return false;
    }
    let mut m = engine.take_manager(thread_id);
    proof {
        assert(manager_ok(old(engine).managers()[thread_id as int], engine.next_task_id()));
    }
    let r = m.set_task_priority(task_id, priority).is_some();
    engine.put_manager(thread_id, m);
    proof {
        lemma_put_back(old(engine).managers(), engine.managers(), thread_id as int, m);
        lemma_managers_ok_grow(*old(engine), *engine, thread_id as int);
    }
    r
}

/// The name of the task `id` of the manager `thread_id`.
pub fn get_task_name<TF, TD, EF, ED>(engine: &Engine<TF, TD, EF, ED>, thread_id: usize, id: usize) -> (r:
    Option<String>)
    requires
        engine.wf(),
    ensures
        match r {
            Some(s) => thread_id < engine.managers().len() && engine.managers()[thread_id as int].names().contains_key(id)
                && engine.managers()[thread_id as int].names()[id] == s@,
            None => thread_id >= engine.managers().len() || !engine.managers()[thread_id as int].names().contains_key(id),
        },
{
    if thread_id >= engine.task_managers_.len() {
        return None;
    }
    match engine.task_managers_[thread_id].get_task_name(id) {
        Some(s) => Some(s.to_owned()),
        None => None,
    }
}

/// The id of the task named `task_name` in the manager `thread_id`, or 0.
pub fn get_task<TF, TD, EF, ED>(engine: &Engine<TF, TD, EF, ED>, thread_id: usize, task_name: &str) -> (r:
    usize)
    requires
        engine.wf(),
    ensures
        r == (if thread_id < engine.managers().len() {
            match id_of(engine.managers()[thread_id as int].names(), task_name@) {
                Some(id) => id,
                None => 0,
            }
        } else {
            0
        }),
{
    if thread_id >= engine.task_managers_.len() {
        return 0;
    }
    proof {
        assert(manager_ok(engine.managers()[thread_id as int], engine.next_task_id()));
    }
    match engine.task_managers_[thread_id].get_task_id(task_name) {
        Some(id) => id,
        None => 0,
    }
}

/// The id that `o` holds, or 0.
pub open spec fn id_or_zero(o: Option<usize>) -> usize {
    match o {
        Some(id) => id,
        None => 0,
    }
}

/// Registers the event `event_name` of category `kind` under its prefixed
/// name; an event that has that name already keeps its id and state and
/// gets the default callback. The result is the event's id, or 0 where no
/// id is left.
pub fn create_event<TF, TD, EF, ED>(
    engine: &mut Engine<TF, TD, EF, ED>,
    kind: EventEnum,
    event_name: &str,
    now: u64,
) -> (r: usize)
    requires
        old(engine).wf(),
    ensures
        final(engine).wf(),
        final(engine).same_tasks_and_settings(old(engine)),
        final(engine).handler().container().same_queues(&old(engine).handler().container()),
        old(engine).next_event_id() == usize::MAX ==> r == 0 && final(engine).handler() == old(engine).handler() && final(engine).next_event_id() == old(engine).next_event_id(),
        old(engine).next_event_id() < usize::MAX ==> r == registered_id(
            old(engine).handler().names(),
            stored_name(kind, event_name@),
            old(engine).next_event_id(),
        ) && final(engine).handler().names() == registered_names(
            old(engine).handler().names(),
            stored_name(kind, event_name@),
            old(engine).next_event_id(),
        ) && final(engine).handler().events() == (if id_of(
            old(engine).handler().names(),
            stored_name(kind, event_name@),
        ) is Some {
            old(engine).handler().events()
        } else {
            old(engine).handler().events().insert(
                old(engine).next_event_id(),
                crate::event_container::new_event_state(old(engine).next_event_id(), kind, now),
            )
        }) && final(engine).next_event_id() == (if id_of(
            old(engine).handler().names(),
            stored_name(kind, event_name@),
        ) is Some {
            old(engine).next_event_id()
        } else {
            (old(engine).next_event_id() + 1) as usize
        }),
        old(engine).next_event_id() < usize::MAX ==> r >= 1 && final(engine).handler().events().contains_key(r),
        old(engine).next_event_id() < usize::MAX && id_of(
            old(engine).handler().names(),
            stored_name(kind, event_name@),
        ) is None ==> final(engine).handler().events()[r].kind == kind && (forall|id: usize|
            #[trigger] old(engine).handler().events().contains_key(id) ==> id < r),
{
    if engine.next_event_id_ == usize::MAX {
        return 0;
    }
    let next = engine.next_event_id_;
    let id = engine.event_handler_.create_event(kind, event_name, next, now);
    if id == next {
        engine.next_event_id_ = next + 1;
    }
    id
}

pub fn create_user_event<TF, TD, EF, ED>(
    engine: &mut Engine<TF, TD, EF, ED>,
    event_name: &str,
    now: u64,
) -> (r: usize)
    requires
        old(engine).wf(),
    ensures
        final(engine).wf(),
        final(engine).same_tasks_and_settings(old(engine)),
        old(engine).next_event_id() < usize::MAX ==> r == registered_id(
            old(engine).handler().names(),
            stored_name(EventEnum::User, event_name@),
            old(engine).next_event_id(),
        ) && final(engine).handler().names() == registered_names(
            old(engine).handler().names(),
            stored_name(EventEnum::User, event_name@),
            old(engine).next_event_id(),
        ),
        old(engine).next_event_id() == usize::MAX ==> r == 0,
        old(engine).next_event_id() < usize::MAX ==> r >= 1 && final(engine).handler().events().contains_key(r),
        old(engine).next_event_id() < usize::MAX && id_of(
            old(engine).handler().names(),
            stored_name(EventEnum::User, event_name@),
        ) is None ==> final(engine).handler().events()[r].kind == EventEnum::User && (forall|id: usize|
            #[trigger] old(engine).handler().events().contains_key(id) ==> id < r),
{
    create_event(engine, EventEnum::User, event_name, now)
}

pub fn create_keyboard_event<TF, TD, EF, ED>(
    engine: &mut Engine<TF, TD, EF, ED>,
    event_name: &str,
    now: u64,
) -> (r: usize)
    requires
        old(engine).wf(),
    ensures
        final(engine).wf(),
        final(engine).same_tasks_and_settings(old(engine)),
        old(engine).next_event_id() < usize::MAX ==> r == registered_id(
            old(engine).handler().names(),
            stored_name(EventEnum::Keyboard, event_name@),
            old(engine).next_event_id(),
        ) && final(engine).handler().names() == registered_names(
            old(engine).handler().names(),
            stored_name(EventEnum::Keyboard, event_name@),
            old(engine).next_event_id(),
        ),
        old(engine).next_event_id() == usize::MAX ==> r == 0,
        old(engine).next_event_id() < usize::MAX ==> r >= 1 && final(engine).handler().events().contains_key(r),
        old(engine).next_event_id() < usize::MAX && id_of(
            old(engine).handler().names(),
            stored_name(EventEnum::Keyboard, event_name@),
        ) is None ==> final(engine).handler().events()[r].kind == EventEnum::Keyboard && (forall|id: usize|
            #[trigger] old(engine).handler().events().contains_key(id) ==> id < r),
{
    create_event(engine, EventEnum::Keyboard, event_name, now)
}

pub fn create_mouse_event<TF, TD, EF, ED>(
    engine: &mut Engine<TF, TD, EF, ED>,
    event_name: &str,
    now: u64,
) -> (r: usize)
    requires
        old(engine).wf(),
    ensures
        final(engine).wf(),
        final(engine).same_tasks_and_settings(old(engine)),
        old(engine).next_event_id() < usize::MAX ==> r == registered_id(
            old(engine).handler().names(),
            stored_name(EventEnum::Mouse, event_name@),
            old(engine).next_event_id(),
        ) && final(engine).handler().names() == registered_names(
            old(engine).handler().names(),
            stored_name(EventEnum::Mouse, event_name@),
            old(engine).next_event_id(),
        ),
        old(engine).next_event_id() == usize::MAX ==> r == 0,
        old(engine).next_event_id() < usize::MAX ==> r >= 1 && final(engine).handler().events().contains_key(r),
        old(engine).next_event_id() < usize::MAX && id_of(
            old(engine).handler().names(),
            stored_name(EventEnum::Mouse, event_name@),
        ) is None ==> final(engine).handler().events()[r].kind == EventEnum::Mouse && (forall|id: usize|
            #[trigger] old(engine).handler().events().contains_key(id) ==> id < r),
{
    create_event(engine, EventEnum::Mouse, event_name, now)
}

pub fn create_internal_event<TF, TD, EF, ED>(
    engine: &mut Engine<TF, TD, EF, ED>,
    event_name: &str,
    now: u64,
) -> (r: usize)
    requires
        old(engine).wf(),
    ensures
        final(engine).wf(),
        final(engine).same_tasks_and_settings(old(engine)),
        old(engine).next_event_id() < usize::MAX ==> r == registered_id(
            old(engine).handler().names(),
            stored_name(EventEnum::Internal, event_name@),
            old(engine).next_event_id(),
        ) && final(engine).handler().names() == registered_names(
            old(engine).handler().names(),
            stored_name(EventEnum::Internal, event_name@),
            old(engine).next_event_id(),
        ),
        old(engine).next_event_id() == usize::MAX ==> r == 0,
        old(engine).next_event_id() < usize::MAX ==> r >= 1 && final(engine).handler().events().contains_key(r),
        old(engine).next_event_id() < usize::MAX && id_of(
            old(engine).handler().names(),
            stored_name(EventEnum::Internal, event_name@),
        ) is None ==> final(engine).handler().events()[r].kind == EventEnum::Internal && (forall|id: usize|
            #[trigger] old(engine).handler().events().contains_key(id) ==> id < r),
{
    create_event(engine, EventEnum::Internal, event_name, now)
}

/// The id of the user event `event_name`, or 0.
pub fn get_user_event<TF, TD, EF, ED>(engine: &Engine<TF, TD, EF, ED>, event_name: &str) -> (r: usize)
    requires
        engine.wf(),
    ensures
        r == id_or_zero(id_of(engine.handler().names(), stored_name(EventEnum::User, event_name@))),
{
    match engine.event_handler_.get_user_event_id(event_name) {
        Some(id) => id,
        None => 0,
    }
}

/// The ids of the user events, each once.
pub fn get_user_events<TF, TD, EF, ED>(engine: &Engine<TF, TD, EF, ED>) -> (r: Vec<usize>)
    requires
        engine.wf(),
    ensures
        r@.no_duplicates(),
        forall|id: usize|
            #[trigger] r@.contains(id) <==> (engine.handler().events().contains_key(id)
                && engine.handler().events()[id].kind == EventEnum::User),
{
    engine.event_handler_.get_user_events()
}

/// The stored name of the event `id`.
pub fn get_event_name<TF, TD, EF, ED>(engine: &Engine<TF, TD, EF, ED>, id: usize) -> (r: Option<String>)
    ensures
        match r {
            Some(s) => engine.handler().names().contains_key(id) && engine.handler().names()[id]
                == s@,
            None => !engine.handler().names().contains_key(id),
        },
{
    match engine.event_handler_.get_event_name(id) {
        Some(s) => Some(s.to_owned()),
        None => None,
    }
}

/// The id of the event stored under `event_name`, prefix included.
pub fn get_event_id<TF, TD, EF, ED>(engine: &Engine<TF, TD, EF, ED>, event_name: &str) -> (r: Option<usize>)
    requires
        engine.wf(),
    ensures
        r == id_of(engine.handler().names(), event_name@),
{
    engine.event_handler_.get_event_id(event_name)
}

/// Queues the event `event_id` for the next pass; false where there is no
/// such event.
pub fn broadcast_event_by_id<TF, TD, EF, ED>(engine: &mut Engine<TF, TD, EF, ED>, event_id: usize) -> (r:
    bool)
    requires
        old(engine).wf(),
    ensures
        final(engine).wf(),
        final(engine).same_tasks_and_settings(old(engine)),
        final(engine).next_event_id() == old(engine).next_event_id(),
        final(engine).handler().events() == old(engine).handler().events(),
        final(engine).handler().names() == old(engine).handler().names(),
        final(engine).handler().container().repeated() == old(engine).handler().container().repeated(),
        final(engine).handler().container().pending()
            == crate::event_container::pending_after_broadcast(
            old(engine).handler().container().pending(),
            old(engine).handler().events(),
            event_id,
        ),
        r == old(engine).handler().events().contains_key(event_id),
{
    engine.event_handler_.broadcast_event(event_id).is_some()
}

/// Queues the event stored under `event_name`; false where there is none.
pub fn broadcast_event<TF, TD, EF, ED>(engine: &mut Engine<TF, TD, EF, ED>, event_name: &str) -> (r:
    bool)
    requires
        old(engine).wf(),
    ensures
        final(engine).wf(),
        final(engine).same_tasks_and_settings(old(engine)),
        final(engine).next_event_id() == old(engine).next_event_id(),
        final(engine).handler().events() == old(engine).handler().events(),
        final(engine).handler().names() == old(engine).handler().names(),
        final(engine).handler().container().repeated() == old(engine).handler().container().repeated(),
        r == id_of(old(engine).handler().names(), event_name@) is Some,
        match id_of(old(engine).handler().names(), event_name@) {
            Some(id) => final(engine).handler().container().pending()
                == crate::event_container::pending_after_broadcast(
                old(engine).handler().container().pending(),
                old(engine).handler().events(),
                id,
            ),
            None => final(engine).handler() == old(engine).handler(),
        },
{
    match engine.event_handler_.get_event_id(event_name) {
        Some(id) => {
            engine.event_handler_.broadcast_event(id);
            true
        },
        None => false,
    }
}

/// Makes the event `event_id` run on every pass; false where there is no
/// such event.
pub fn repeat_event_by_id<TF, TD, EF, ED>(engine: &mut Engine<TF, TD, EF, ED>, event_id: usize) -> (r: bool)
    requires
        old(engine).wf(),
    ensures
        final(engine).wf(),
        final(engine).same_tasks_and_settings(old(engine)),
        final(engine).next_event_id() == old(engine).next_event_id(),
        final(engine).handler().events() == old(engine).handler().events(),
        final(engine).handler().names() == old(engine).handler().names(),
        final(engine).handler().container().pending() == old(engine).handler().container().pending(),
        r == old(engine).handler().events().contains_key(event_id),
        r ==> final(engine).handler().container().repeated() == old(engine).handler().container().repeated().insert(event_id, None),
        !r ==> final(engine).handler() == old(engine).handler(),
{
    engine.event_handler_.repeat_event(event_id).is_some()
}

/// Makes the event stored under `event_name` run on every pass; false
/// where there is none.
pub fn repeat_event<TF, TD, EF, ED>(engine: &mut Engine<TF, TD, EF, ED>, event_name: &str) -> (r: bool)
    requires
        old(engine).wf(),
    ensures
        final(engine).wf(),
        final(engine).same_tasks_and_settings(old(engine)),
        final(engine).next_event_id() == old(engine).next_event_id(),
        final(engine).handler().events() == old(engine).handler().events(),
        final(engine).handler().names() == old(engine).handler().names(),
        final(engine).handler().container().pending() == old(engine).handler().container().pending(),
        r == id_of(old(engine).handler().names(), event_name@) is Some,
        match id_of(old(engine).handler().names(), event_name@) {
            Some(id) => final(engine).handler().container().repeated() == old(engine).handler().container().repeated().insert(id, None),
            None => final(engine).handler() == old(engine).handler(),
        },
{
    match engine.event_handler_.get_event_id(event_name) {
        Some(id) => {
            engine.event_handler_.repeat_event(id);
            true
        },
        None => false,
    }
}

/// Makes the event `event_id` run on every pass once `interval`
/// nanoseconds have passed since it last fired.
pub fn repeat_timed_event_by_id<TF, TD, EF, ED>(engine: &mut Engine<TF, TD, EF, ED>, event_id: usize, interval: u64) -> (r: bool)
    requires
        old(engine).wf(),
    ensures
        final(engine).wf(),
        final(engine).same_tasks_and_settings(old(engine)),
        final(engine).next_event_id() == old(engine).next_event_id(),
        final(engine).handler().events() == old(engine).handler().events(),
        final(engine).handler().names() == old(engine).handler().names(),
        final(engine).handler().container().pending() == old(engine).handler().container().pending(),
        r == old(engine).handler().events().contains_key(event_id),
        r ==> final(engine).handler().container().repeated() == old(engine).handler().container().repeated().insert(event_id, Some(interval)),
        !r ==> final(engine).handler() == old(engine).handler(),
{
    engine.event_handler_.repeat_timed_event(event_id, interval).is_some()
}

/// Makes the event stored under `event_name` run on every pass once
/// `interval` nanoseconds have passed since it last fired.
pub fn repeat_timed_event<TF, TD, EF, ED>(engine: &mut Engine<TF, TD, EF, ED>, event_name: &str, interval: u64) -> (r: bool)
    requires
        old(engine).wf(),
    ensures
        final(engine).wf(),
        final(engine).same_tasks_and_settings(old(engine)),
        final(engine).next_event_id() == old(engine).next_event_id(),
        final(engine).handler().events() == old(engine).handler().events(),
        final(engine).handler().names() == old(engine).handler().names(),
        final(engine).handler().container().pending() == old(engine).handler().container().pending(),
        r == id_of(old(engine).handler().names(), event_name@) is Some,
        match id_of(old(engine).handler().names(), event_name@) {
            Some(id) => final(engine).handler().container().repeated() == old(engine).handler().container().repeated().insert(id, Some(interval)),
            None => final(engine).handler() == old(engine).handler(),
        },
{
    match engine.event_handler_.get_event_id(event_name) {
        Some(id) => {
            engine.event_handler_.repeat_timed_event(id, interval);
            true
        },
        None => false,
    }
}

/// Stops the event `event_id` from running on every pass.
pub fn derepeat_event_by_id<TF, TD, EF, ED>(engine: &mut Engine<TF, TD, EF, ED>, event_id: usize) -> (r: bool)
    requires
        old(engine).wf(),
    ensures
        final(engine).wf(),
        final(engine).same_tasks_and_settings(old(engine)),
        final(engine).next_event_id() == old(engine).next_event_id(),
        final(engine).handler().events() == old(engine).handler().events(),
        final(engine).handler().names() == old(engine).handler().names(),
        final(engine).handler().container().pending() == old(engine).handler().container().pending(),
        r == old(engine).handler().events().contains_key(event_id),
        r ==> final(engine).handler().container().repeated() == old(engine).handler().container().repeated().remove(event_id),
        !r ==> final(engine).handler() == old(engine).handler(),
{
    engine.event_handler_.derepeat_event(event_id).is_some()
}

/// Stops the event stored under `event_name` from running on every pass.
pub fn derepeat_event<TF, TD, EF, ED>(engine: &mut Engine<TF, TD, EF, ED>, event_name: &str) -> (r: bool)
    requires
        old(engine).wf(),
    ensures
        final(engine).wf(),
        final(engine).same_tasks_and_settings(old(engine)),
        final(engine).next_event_id() == old(engine).next_event_id(),
        final(engine).handler().events() == old(engine).handler().events(),
        final(engine).handler().names() == old(engine).handler().names(),
        final(engine).handler().container().pending() == old(engine).handler().container().pending(),
        r == id_of(old(engine).handler().names(), event_name@) is Some,
        match id_of(old(engine).handler().names(), event_name@) {
            Some(id) => final(engine).handler().container().repeated() == old(engine).handler().container().repeated().remove(id),
            None => final(engine).handler() == old(engine).handler(),
        },
{
    match engine.event_handler_.get_event_id(event_name) {
        Some(id) => {
            engine.event_handler_.derepeat_event(id);
            true
        },
        None => false,
    }
}

/// Gives the event `event_id` the callback `func` and no payload; false
/// where there is no such event.
pub fn set_event_func_by_id<TF, TD, EF, ED>(engine: &mut Engine<TF, TD, EF, ED>, event_id: usize, func: EF) -> (r: bool)
    requires
        old(engine).wf(),
    ensures
        final(engine).wf(),
        final(engine).same_tasks_and_settings(old(engine)),
        final(engine).next_event_id() == old(engine).next_event_id(),
        final(engine).handler().events() == old(engine).handler().events(),
        final(engine).handler().names() == old(engine).handler().names(),
        final(engine).handler().container().same_queues(&old(engine).handler().container()),
        r == old(engine).handler().events().contains_key(event_id),
        r ==> final(engine).handler().funcs() == old(engine).handler().funcs().insert(
            event_id,
            Some(func),
        ) && final(engine).handler().payloads() == old(engine).handler().payloads().insert(event_id, None::<ED>),
        !r ==> final(engine).handler().funcs() == old(engine).handler().funcs()
            && final(engine).handler().payloads() == old(engine).handler().payloads(),
{
    engine.event_handler_.set_event_func_only(event_id, func).is_some()
}

/// Gives the event stored under `event_name` the callback `func` and no
/// payload; false where there is none.
pub fn set_event_func<TF, TD, EF, ED>(engine: &mut Engine<TF, TD, EF, ED>, event_name: &str, func: EF) -> (r: bool)
    requires
        old(engine).wf(),
    ensures
        final(engine).wf(),
        final(engine).same_tasks_and_settings(old(engine)),
        final(engine).next_event_id() == old(engine).next_event_id(),
        final(engine).handler().events() == old(engine).handler().events(),
        final(engine).handler().names() == old(engine).handler().names(),
        final(engine).handler().container().same_queues(&old(engine).handler().container()),
        r == id_of(old(engine).handler().names(), event_name@) is Some,
        r ==> final(engine).handler().funcs() == old(engine).handler().funcs().insert(
            id_of(old(engine).handler().names(), event_name@)->Some_0,
            Some(func),
        ) && final(engine).handler().payloads() == old(engine).handler().payloads().insert(id_of(old(engine).handler().names(), event_name@)->Some_0, None::<ED>),
        !r ==> final(engine).handler().funcs() == old(engine).handler().funcs()
            && final(engine).handler().payloads() == old(engine).handler().payloads(),
{
    match engine.event_handler_.get_event_id(event_name) {
        Some(id) => engine.event_handler_.set_event_func_only(id, func).is_some(),
        None => false,
    }
}

/// Gives the event `event_id` the callback `func` with the payload
/// `data`; false where there is no such event.
pub fn set_event_func_data_by_id<TF, TD, EF, ED>(engine: &mut Engine<TF, TD, EF, ED>, event_id: usize, func: EF, data: ED) -> (r: bool)
    requires
        old(engine).wf(),
    ensures
        final(engine).wf(),
        final(engine).same_tasks_and_settings(old(engine)),
        final(engine).next_event_id() == old(engine).next_event_id(),
        final(engine).handler().events() == old(engine).handler().events(),
        final(engine).handler().names() == old(engine).handler().names(),
        final(engine).handler().container().same_queues(&old(engine).handler().container()),
        r == old(engine).handler().events().contains_key(event_id),
        r ==> final(engine).handler().funcs() == old(engine).handler().funcs().insert(
            event_id,
            Some(func),
        ) && final(engine).handler().payloads() == old(engine).handler().payloads().insert(event_id, Some(data)),
        !r ==> final(engine).handler().funcs() == old(engine).handler().funcs()
            && final(engine).handler().payloads() == old(engine).handler().payloads(),
{
    engine.event_handler_.set_event_func(event_id, func, data).is_some()
}

/// Gives the event stored under `event_name` the callback `func` with the
/// payload `data`; false where there is none.
pub fn set_event_func_data<TF, TD, EF, ED>(engine: &mut Engine<TF, TD, EF, ED>, event_name: &str, func: EF, data: ED) -> (r: bool)
    requires
        old(engine).wf(),
    ensures
        final(engine).wf(),
        final(engine).same_tasks_and_settings(old(engine)),
        final(engine).next_event_id() == old(engine).next_event_id(),
        final(engine).handler().events() == old(engine).handler().events(),
        final(engine).handler().names() == old(engine).handler().names(),
        final(engine).handler().container().same_queues(&old(engine).handler().container()),
        r == id_of(old(engine).handler().names(), event_name@) is Some,
        r ==> final(engine).handler().funcs() == old(engine).handler().funcs().insert(
            id_of(old(engine).handler().names(), event_name@)->Some_0,
            Some(func),
        ) && final(engine).handler().payloads() == old(engine).handler().payloads().insert(id_of(old(engine).handler().names(), event_name@)->Some_0, Some(data)),
        !r ==> final(engine).handler().funcs() == old(engine).handler().funcs()
            && final(engine).handler().payloads() == old(engine).handler().payloads(),
{
    match engine.event_handler_.get_event_id(event_name) {
        Some(id) => engine.event_handler_.set_event_func(id, func, data).is_some(),
        None => false,
    }
}

/// Gives the event stored under `event_name` the payload `data`; false
/// where there is none.
pub fn set_event_data<TF, TD, EF, ED>(engine: &mut Engine<TF, TD, EF, ED>, event_name: &str, data: ED) -> (r: bool)
    requires
        old(engine).wf(),
    ensures
        final(engine).wf(),
        final(engine).same_tasks_and_settings(old(engine)),
        final(engine).next_event_id() == old(engine).next_event_id(),
        final(engine).handler().events() == old(engine).handler().events(),
        final(engine).handler().names() == old(engine).handler().names(),
        final(engine).handler().container().same_queues(&old(engine).handler().container()),
        r == id_of(old(engine).handler().names(), event_name@) is Some,
        r ==> final(engine).handler().funcs() == old(engine).handler().funcs() && final(engine).handler().payloads() == old(engine).handler().payloads().insert(id_of(old(engine).handler().names(), event_name@)->Some_0, Some(data)),
        !r ==> final(engine).handler().funcs() == old(engine).handler().funcs()
            && final(engine).handler().payloads() == old(engine).handler().payloads(),
{
    match engine.event_handler_.get_event_id(event_name) {
        Some(id) => engine.event_handler_.set_event_data(id, data).is_some(),
        None => false,
    }
}

/// Gives the event `event_id` the payload `data`; false where there is no
/// such event.
pub fn set_event_data_by_id<TF, TD, EF, ED>(engine: &mut Engine<TF, TD, EF, ED>, event_id: usize, data: ED) -> (r: bool)
    requires
        old(engine).wf(),
    ensures
        final(engine).wf(),
        final(engine).same_tasks_and_settings(old(engine)),
        final(engine).next_event_id() == old(engine).next_event_id(),
        final(engine).handler().events() == old(engine).handler().events(),
        final(engine).handler().names() == old(engine).handler().names(),
        final(engine).handler().container().same_queues(&old(engine).handler().container()),
        r == old(engine).handler().events().contains_key(event_id),
        r ==> final(engine).handler().funcs() == old(engine).handler().funcs() && final(engine).handler().payloads() == old(engine).handler().payloads().insert(event_id, Some(data)),
        !r ==> final(engine).handler().funcs() == old(engine).handler().funcs()
            && final(engine).handler().payloads() == old(engine).handler().payloads(),
{
    engine.event_handler_.set_event_data(event_id, data).is_some()
}

/// Registers the internal event `load-<filename>` with the callback `func`
/// and no payload, for the scene loader to broadcast once the file is in.
/// False where no event id is left.
pub fn load_world_func<TF, TD, EF, ED>(
    engine: &mut Engine<TF, TD, EF, ED>,
    filename: &str,
    func: EF,
    now: u64,
) -> (r: bool)
    requires
        old(engine).wf(),
    ensures
        final(engine).wf(),
        final(engine).same_tasks_and_settings(old(engine)),
        r == (old(engine).next_event_id() < usize::MAX),
        r ==> id_of(
            final(engine).handler().names(),
            stored_name(EventEnum::Internal, load_event_name(filename@)),
        ) is Some,
        r ==> final(engine).handler().funcs()[id_of(
            final(engine).handler().names(),
            stored_name(EventEnum::Internal, load_event_name(filename@)),
        )->Some_0] == Some(func),
{
    let name = load_name(filename);
    let id = create_event(engine, EventEnum::Internal, name.as_str(), now);
    if id == 0 {
        proof {
            if old(engine).next_event_id() < usize::MAX {
                lemma_registered_nonzero(*old(engine), EventEnum::Internal, name@);
            }
        }
        return false;
    }
    proof {
        lemma_registered_found(*old(engine), *engine, EventEnum::Internal, name@);
    }
    engine.event_handler_.set_event_func_only(id, func);
    true
}

/// As `load_world_func`, with the payload `data` for the callback.
pub fn load_world_func_data<TF, TD, EF, ED>(
    engine: &mut Engine<TF, TD, EF, ED>,
    filename: &str,
    func: EF,
    data: ED,
    now: u64,
) -> (r: bool)
    requires
        old(engine).wf(),
    ensures
        final(engine).wf(),
        final(engine).same_tasks_and_settings(old(engine)),
        r == (old(engine).next_event_id() < usize::MAX),
        r ==> id_of(
            final(engine).handler().names(),
            stored_name(EventEnum::Internal, load_event_name(filename@)),
        ) is Some,
        r ==> final(engine).handler().funcs()[id_of(
            final(engine).handler().names(),
            stored_name(EventEnum::Internal, load_event_name(filename@)),
        )->Some_0] == Some(func) && final(engine).handler().payloads()[id_of(
            final(engine).handler().names(),
            stored_name(EventEnum::Internal, load_event_name(filename@)),
        )->Some_0] == Some(data),
{
    let name = load_name(filename);
    let id = create_event(engine, EventEnum::Internal, name.as_str(), now);
    if id == 0 {
        proof {
            if old(engine).next_event_id() < usize::MAX {
                lemma_registered_nonzero(*old(engine), EventEnum::Internal, name@);
            }
        }
        return false;
    }
    proof {
        lemma_registered_found(*old(engine), *engine, EventEnum::Internal, name@);
    }
    engine.event_handler_.set_event_func(id, func, data);
    true
}

/// The name of the event that announces that `filename` was loaded.
pub open spec fn load_event_name(filename: Seq<char>) -> Seq<char> {
    "load-"@ + filename
}

fn load_name(filename: &str) -> (r: String)
    ensures
        r@ == load_event_name(filename@),
{
    let mut name = String::from_str("load-");
    name.append(filename);
    name
}

proof fn lemma_registered_nonzero<TF, TD, EF, ED>(
    before: Engine<TF, TD, EF, ED>,
    kind: EventEnum,
    name: Seq<char>,
)
    requires
        before.wf(),
        before.next_event_id() < usize::MAX,
    ensures
        registered_id(before.handler().names(), stored_name(kind, name), before.next_event_id())
            != 0,
{
    let names = before.handler().names();
    let n = stored_name(kind, name);
    if let Some(k) = id_of(names, n) {
        assert(names.contains_key(k));
        assert(before.handler().events().contains_key(k));
    }
}

proof fn lemma_registered_found<TF, TD, EF, ED>(
    before: Engine<TF, TD, EF, ED>,
    after: Engine<TF, TD, EF, ED>,
    kind: EventEnum,
    name: Seq<char>,
)
    requires
        before.next_event_id() < usize::MAX,
        after.handler().names() == registered_names(
            before.handler().names(),
            stored_name(kind, name),
            before.next_event_id(),
        ),
    ensures
        id_of(after.handler().names(), stored_name(kind, name)) is Some,
{
    let names = before.handler().names();
    let n = stored_name(kind, name);
    if let Some(k) = id_of(names, n) {
        assert(after.handler().names().contains_key(k) && after.handler().names()[k] == n);
    } else {
        let next = before.next_event_id();
        assert(after.handler().names().contains_key(next) && after.handler().names()[next] == n);
    }
}

/// What a frame does to a manager's tasks: each task ran once at `now`, in
/// pass order, and took the timestamp update; for some outputs of its
/// callbacks that fit the pass, exactly the tasks of the pass's removal list
/// are gone. So a task that runs once is gone once it fired, one that did
/// not fire stays, and a repeating task stays unless its callback asked to
/// be dropped.
pub open spec fn frame_done<F, D>(a: TaskManager<F, D>, b: TaskManager<F, D>, now: u64) -> bool {
    &&& exists|outs: Seq<TaskOutput>|
        #![trigger removal_list(a.tasks(), a.container().order_ids(), outs, now)]
        outputs_fit(a.tasks(), a.container().order_ids(), outs, now) && b.tasks().dom()
            == a.tasks().dom().difference(
            removal_list(a.tasks(), a.container().order_ids(), outs, now).to_set(),
        )
    &&& b.names() == a.names().restrict(b.tasks().dom())
    &&& forall|id: usize| #[trigger]
        b.tasks().contains_key(id) ==> b.tasks()[id] == task_after_update(
            task_after_pass(a.tasks()[id], now),
            now,
        )
    &&& forall|id: usize| #[trigger]
        a.tasks().contains_key(id) && a.tasks()[id].kind == TaskEnum::Once && task_fires(
            a.tasks()[id],
            now,
        ) ==> !b.tasks().contains_key(id)
    &&& forall|id: usize| #[trigger]
        a.tasks().contains_key(id) && !task_fires(a.tasks()[id], now) ==> b.tasks().contains_key(
            id,
        )
}

proof fn lemma_frame_done<F, D>(
    a: TaskManager<F, D>,
    ran: TaskManager<F, D>,
    updated: TaskManager<F, D>,
    b: TaskManager<F, D>,
    removed: Seq<usize>,
    now: u64,
)
    requires
        a.wf(),
        ran.tasks().dom() == a.tasks().dom(),
        forall|id: usize| #[trigger]
            a.tasks().contains_key(id) ==> ran.tasks()[id] == task_after_pass(a.tasks()[id], now),
        exists|outs: Seq<TaskOutput>|
            outputs_fit(a.tasks(), a.container().order_ids(), outs, now) && removed
                == removal_list(a.tasks(), a.container().order_ids(), outs, now),
        ran.names() == a.names(),
        updated.names() == ran.names(),
        updated.tasks().dom() == ran.tasks().dom(),
        forall|id: usize| #[trigger]
            ran.tasks().contains_key(id) ==> updated.tasks()[id] == task_after_update(
                ran.tasks()[id],
                now,
            ),
        b.tasks() == updated.tasks().remove_keys(removed.to_set()),
        b.names() == updated.names().remove_keys(removed.to_set()),
    ensures
        frame_done(a, b, now),
{
    let outs = choose|outs: Seq<TaskOutput>|
        outputs_fit(a.tasks(), a.container().order_ids(), outs, now) && removed == removal_list(
            a.tasks(),
            a.container().order_ids(),
            outs,
            now,
        );
    let ids = a.container().order_ids();
    a.container().lemma_order_ids();
    lemma_removal_list_members(a.tasks(), ids, outs, now);
    assert(b.names() =~= a.names().restrict(b.tasks().dom()));
    assert(b.tasks().dom() =~= a.tasks().dom().difference(removed.to_set()));
    assert forall|id: usize| #[trigger]
        a.tasks().contains_key(id) && a.tasks()[id].kind == TaskEnum::Once && task_fires(
            a.tasks()[id],
            now,
        ) implies !b.tasks().contains_key(id) by {
        assert(ids.contains(id));
        let i = choose|i: int| 0 <= i < ids.len() && ids[i] == id;
        assert(run_removes(a.tasks()[id], outs[i], now));
        assert(removed.contains(id));
        assert(removed.to_set().contains(id));
    }
    assert forall|id: usize| #[trigger]
        a.tasks().contains_key(id) && !task_fires(a.tasks()[id], now) implies b.tasks().contains_key(
        id,
    ) by {
        if removed.contains(id) {
            let i = choose|i: int|
                0 <= i < ids.len() && ids[i] == id && run_removes(a.tasks()[id], outs[i], now);
            assert(outs[i] == TaskOutput::Keep);
        }
        assert(!removed.to_set().contains(id));
    }
}

/// The task passes of a frame, on the live managers, for a single-threaded
/// loop: each manager runs its tasks with its index as thread id, then
/// updates their timestamps, then removes the tasks of the pass's removal list:
/// those that asked to be dropped and those that run once and fired.
pub fn update_tasks<TF: TaskFuncTrait<TD>, TD, EF, ED>(engine: &mut Engine<TF, TD, EF, ED>, now: u64)
    requires
        old(engine).wf(),
    ensures
        final(engine).wf(),
        final(engine).same_events_and_settings(old(engine)),
        final(engine).next_task_id() == old(engine).next_task_id(),
        final(engine).managers().len() == old(engine).managers().len(),
        forall|j: int|
            0 <= j < old(engine).managers().len() ==> frame_done(
                old(engine).managers()[j],
                #[trigger] final(engine).managers()[j],
                now,
            ),
{
    let mut i: usize = 0;
    while i < engine.task_managers_.len()
        invariant
            engine.wf(),
            engine.same_events_and_settings(old(engine)),
            engine.next_task_id() == old(engine).next_task_id(),
            engine.managers().len() == old(engine).managers().len(),
            0 <= i <= engine.managers().len(),
            forall|j: int|
                0 <= j < i ==> frame_done(
                    old(engine).managers()[j],
                    #[trigger] engine.managers()[j],
                    now,
                ),
            forall|j: int|
                i <= j < engine.managers().len() ==> #[trigger] engine.managers()[j] == old(engine).managers()[j],
        decreases engine.managers().len() - i,
    {
        let ghost before = *engine;
        let mut m = engine.take_manager(i);
        proof {
            assert(manager_ok(before.managers()[i as int], before.next_task_id()));
        }
        let ghost a = m;
        let removed = m.run_tasks(i, now);
        let ghost ran = m;
        m.update_task_timestamps(now);
        let ghost updated = m;
        let ghost removed_seq = removed@;
        m.remove_tasks(removed);
        proof {
            lemma_frame_done(a, ran, updated, m, removed_seq, now);
            assert forall|id: usize| #[trigger] m.tasks().contains_key(id) implies 0 < id
                < before.next_task_id() by {
                assert(a.tasks().contains_key(id));
            }
        }
        engine.put_manager(i, m);
        proof {
            lemma_put_back(before.managers(), engine.managers(), i as int, m);
            lemma_managers_ok_grow(before, *engine, i as int);
        }
        i += 1;
    }
}

/// What a frame does to an event: it may have run (more invocations, and
/// then `now` as its timestamp), and it is no longer marked as executed.
pub open spec fn event_frame_done(a: EventState, b: EventState, now: u64) -> bool {
    &&& b.id == a.id
    &&& b.active == a.active
    &&& b.kind == a.kind
    &&& !b.executed
    &&& a.invocations <= b.invocations
    &&& (a.invocations < b.invocations || a.executed ==> b.timestamp == now)
    &&& (b.timestamp == a.timestamp || b.timestamp == now)
    &&& (!a.active ==> b == event_after_update(a, now))
}

/// The event pass of a frame on the live handler, for a single-threaded
/// loop, followed by the timestamp update.
pub fn update_events<TF, TD, EF: EventFuncTrait<ED>, ED>(engine: &mut Engine<TF, TD, EF, ED>, now: u64)
    requires
        old(engine).wf(),
    ensures
        final(engine).wf(),
        final(engine).same_tasks_and_settings(old(engine)),
        final(engine).next_event_id() == old(engine).next_event_id(),
        events_frame_done(old(engine).handler(), final(engine).handler(), now),
{
    let ghost h0 = engine.handler();
    engine.event_handler_.handle_events(now);
    let ghost h1 = engine.handler();
    engine.event_handler_.update_event_timestamps(now);
    proof {
        lemma_events_frame_done(h0, h1, engine.handler(), now);
    }
}

/// What a frame does to the event handler: the queue of broadcasts is
/// drained, the repeated events stay, every event progressed as
/// `event_frame_done` says, and a pending or repeated event that was due
/// ran, taking `now` as its timestamp.
pub open spec fn events_frame_done<F, D>(a: EventHandler<F, D>, b: EventHandler<F, D>, now: u64) -> bool {
    &&& b.wf()
    &&& b.names() == a.names()
    &&& b.container().pending().len() == 0
    &&& b.container().repeated() == a.container().repeated()
    &&& b.events().dom() == a.events().dom()
    &&& forall|id: usize| #[trigger]
        a.events().contains_key(id) ==> event_frame_done(a.events()[id], b.events()[id], now)
    &&& forall|id: usize|
        #![trigger a.container().pending().contains(id)]
        a.container().pending().contains(id) && a.events().contains_key(id) && event_fires(
            a.events()[id],
            now,
            None,
        ) ==> b.events()[id].timestamp == now && (a.events()[id].invocations < usize::MAX
            ==> a.events()[id].invocations < b.events()[id].invocations)
    &&& forall|id: usize|
        #![trigger a.container().repeated().contains_key(id)]
        a.container().repeated().contains_key(id) && a.events().contains_key(id) && event_fires(
            a.events()[id],
            now,
            a.container().repeated()[id],
        ) ==> b.events()[id].timestamp == now && (a.events()[id].invocations < usize::MAX
            ==> a.events()[id].invocations < b.events()[id].invocations)
}

proof fn lemma_events_frame_done<F, D>(
    a: EventHandler<F, D>,
    ran: EventHandler<F, D>,
    b: EventHandler<F, D>,
    now: u64,
)
    requires
        ran.wf(),
        b.wf(),
        ran.names() == a.names(),
        ran.container().pending().len() == 0,
        ran.container().repeated() == a.container().repeated(),
        events_progressed(a.events(), ran.events()),
        forall|id: usize|
            #![trigger a.container().pending().contains(id)]
            a.container().pending().contains(id) && a.events().contains_key(id) && event_fires(
                a.events()[id],
                now,
                None,
            ) ==> event_fired(a.events()[id], ran.events()[id]),
        forall|id: usize|
            #![trigger a.container().repeated().contains_key(id)]
            a.container().repeated().contains_key(id) && a.events().contains_key(id) && event_fires(
                a.events()[id],
                now,
                a.container().repeated()[id],
            ) ==> event_fired(a.events()[id], ran.events()[id]),
        b.container().same_queues(&ran.container()),
        b.names() == ran.names(),
        b.events().dom() == ran.events().dom(),
        forall|id: usize| #[trigger]
            ran.events().contains_key(id) ==> b.events()[id] == event_after_update(
                ran.events()[id],
                now,
            ),
    ensures
        events_frame_done(a, b, now),
{
    assert forall|id: usize| #[trigger] a.events().contains_key(id) implies event_frame_done(
        a.events()[id],
        b.events()[id],
        now,
    ) by {
        assert(event_progressed(a.events()[id], ran.events()[id]));
    }
    assert forall|id: usize|
        #![trigger a.container().pending().contains(id)]
        a.container().pending().contains(id) && a.events().contains_key(id) && event_fires(
            a.events()[id],
            now,
            None,
        ) implies b.events()[id].timestamp == now && (a.events()[id].invocations < usize::MAX
        ==> a.events()[id].invocations < b.events()[id].invocations) by {
        assert(event_fired(a.events()[id], ran.events()[id]));
    }
    assert forall|id: usize|
        #![trigger a.container().repeated().contains_key(id)]
        a.container().repeated().contains_key(id) && a.events().contains_key(id) && event_fires(
            a.events()[id],
            now,
            a.container().repeated()[id],
        ) implies b.events()[id].timestamp == now && (a.events()[id].invocations < usize::MAX
        ==> a.events()[id].invocations < b.events()[id].invocations) by {
        assert(event_fired(a.events()[id], ran.events()[id]));
    }
}

/// One frame of a single-threaded loop at `now`: the task passes, the
/// window update, the window's input, then the event pass. The result says
/// whether the loop should stop: the window was closed or `set_done` was
/// called.
pub fn step<TF: TaskFuncTrait<TD>, TD, EF: EventFuncTrait<ED>, ED, W: WinsysBaseTrait>(
    engine: &mut Engine<TF, TD, EF, ED>,
    winsys: &mut W,
    now: u64,
) -> (r: bool)
    requires
        old(engine).wf(),
    ensures
        final(engine).wf(),
        old(engine).spec_done() ==> r,
        final(engine).spec_done() == old(engine).spec_done(),
        final(engine).next_task_id() == old(engine).next_task_id(),
        final(engine).next_event_id() == old(engine).next_event_id(),
        final(engine).managers().len() == old(engine).managers().len(),
        forall|j: int|
            0 <= j < old(engine).managers().len() ==> frame_done(
                old(engine).managers()[j],
                #[trigger] final(engine).managers()[j],
                now,
            ),
        events_frame_done(old(engine).handler(), final(engine).handler(), now),
{
    update_tasks(engine, now);
    let info = engine.winsys_update_info_.clone();
    let output = winsys.update_window(info);
    engine.winsys_update_info_ = output.update_info;
    winsys.update_events_single_thread();
    update_events(engine, now);
    let closed = winsys.is_done();
    closed || engine.done_
}

/// A frozen copy of the tasks of the manager `thread_id`, for a pass that
/// runs while registrations go on; `None` where there is no such manager.
pub fn consume_tasks<TF: Clone, TD: Clone, EF, ED>(
    engine: &Engine<TF, TD, EF, ED>,
    thread_id: usize,
) -> (r: Option<TaskContainer<TF, TD>>)
    requires
        engine.wf(),
    ensures
        match r {
            Some(c) => thread_id < engine.managers().len() && c.wf() && c.tasks()
                == engine.managers()[thread_id as int].tasks() && c.names()
                == engine.managers()[thread_id as int].names() && c.order()
                == engine.managers()[thread_id as int].container().order(),
            None => thread_id >= engine.managers().len(),
        },
{
    if thread_id >= engine.task_managers_.len() {
        return None;
    }
    proof {
        assert(manager_ok(engine.managers()[thread_id as int], engine.next_task_id()));
    }
    Some(engine.task_managers_[thread_id].consume_tasks())
}

/// A task's state in the live manager once the run state that a pass left
/// in `pass` is copied back.
pub open spec fn merged_task(live: TaskState, pass: Map<usize, TaskState>, id: usize) -> TaskState {
    if pass.contains_key(id) {
        TaskState { invocations: pass[id].invocations, executed: pass[id].executed, ..live }
    } else {
        live
    }
}

/// Completes a pass that ran on `pass`, a snapshot of the manager
/// `thread_id`: the run states come back, every task takes the timestamp
/// update, and the tasks of `removed` are removed. False where there is no
/// such manager.
pub fn finish_tasks<TF, TD, EF, ED>(
    engine: &mut Engine<TF, TD, EF, ED>,
    thread_id: usize,
    pass: &TaskContainer<TF, TD>,
    removed: Vec<usize>,
    now: u64,
) -> (r: bool)
    requires
        old(engine).wf(),
    ensures
        final(engine).wf(),
        final(engine).same_events_and_settings(old(engine)),
        final(engine).next_task_id() == old(engine).next_task_id(),
        final(engine).managers().len() == old(engine).managers().len(),
        r == (thread_id < old(engine).managers().len()),
        !r ==> final(engine).managers() == old(engine).managers(),
        r ==> forall|j: int|
            0 <= j < old(engine).managers().len() && j != thread_id ==> #[trigger] final(engine).managers()[j] == old(engine).managers()[j],
        r ==> final(engine).managers()[thread_id as int].tasks().dom() == old(engine).managers()[thread_id as int].tasks().dom().difference(removed@.to_set()),
        r ==> forall|id: usize| #[trigger]
            final(engine).managers()[thread_id as int].tasks().contains_key(id) ==> final(engine).managers()[thread_id as int].tasks()[id] == task_after_update(
                merged_task(old(engine).managers()[thread_id as int].tasks()[id], pass.tasks(), id),
                now,
            ),
{
    if thread_id >= engine.task_managers_.len() {
        return false;
    }
    let ghost before = *engine;
    let mut m = engine.take_manager(thread_id);
    proof {
        assert(manager_ok(before.managers()[thread_id as int], before.next_task_id()));
    }
    let ghost a = m;
    m.take_run_states(pass);
    let ghost merged = m;
    m.update_task_timestamps(now);
    let ghost updated = m;
    let ghost removed_set = removed@.to_set();
    m.remove_tasks(removed);
    proof {
        assert(m.tasks().dom() =~= a.tasks().dom().difference(removed_set));
        assert forall|id: usize| #[trigger] m.tasks().contains_key(id) implies 0 < id
            < before.next_task_id() by {
            assert(a.tasks().contains_key(id));
        }
        assert forall|id: usize| #[trigger] m.tasks().contains_key(id) implies m.tasks()[id]
            == task_after_update(merged_task(a.tasks()[id], pass.tasks(), id), now) by {
            assert(merged.tasks()[id] == merged_task(a.tasks()[id], pass.tasks(), id));
        }
    }
    engine.put_manager(thread_id, m);
    proof {
        lemma_put_back(before.managers(), engine.managers(), thread_id as int, m);
        lemma_managers_ok_grow(before, *engine, thread_id as int);
    }
    true
}

/// A frozen copy of the events for a pass that runs while broadcasts go
/// on; the pending events move to the copy.
pub fn consume_events<TF, TD, EF: Clone, ED: Clone>(engine: &mut Engine<TF, TD, EF, ED>) -> (r:
    EventContainer<EF, ED>)
    requires
        old(engine).wf(),
    ensures
        final(engine).wf(),
        final(engine).same_tasks_and_settings(old(engine)),
        final(engine).next_event_id() == old(engine).next_event_id(),
        r.wf(),
        r.events() == old(engine).handler().events(),
        r.names() == old(engine).handler().names(),
        r.same_queues(&old(engine).handler().container()),
        final(engine).handler().events() == old(engine).handler().events(),
        final(engine).handler().names() == old(engine).handler().names(),
        final(engine).handler().container().pending().len() == 0,
        final(engine).handler().container().repeated() == old(engine).handler().container().repeated(),
{
    engine.event_handler_.consume_events()
}

/// Completes an event pass that ran on `pass`, a snapshot of the handler:
/// the run states come back and every event takes the timestamp update.
pub fn finish_events<TF, TD, EF, ED>(
    engine: &mut Engine<TF, TD, EF, ED>,
    pass: &EventContainer<EF, ED>,
    now: u64,
)
    requires
        old(engine).wf(),
    ensures
        final(engine).wf(),
        final(engine).same_tasks_and_settings(old(engine)),
        final(engine).next_event_id() == old(engine).next_event_id(),
        final(engine).handler().names() == old(engine).handler().names(),
        final(engine).handler().container().same_queues(&old(engine).handler().container()),
        final(engine).handler().events().dom() == old(engine).handler().events().dom(),
        forall|id: usize| #[trigger]
            old(engine).handler().events().contains_key(id) ==> final(engine).handler().events()[id]
                == event_after_update(
                merged_event(old(engine).handler().events()[id], pass.events(), id),
                now,
            ),
{
    let ghost h0 = engine.handler();
    engine.event_handler_.take_run_states(pass);
    let ghost h1 = engine.handler();
    engine.event_handler_.update_event_timestamps(now);
    proof {
        assert forall|id: usize| #[trigger] h0.events().contains_key(id) implies engine.handler().events()[id]
            == event_after_update(merged_event(h0.events()[id], pass.events(), id), now) by {
            assert(h1.events()[id] == merged_event(h0.events()[id], pass.events(), id));
        }
    }
}

/// An event's state in the live handler once the run state that a pass
/// left in `pass` is copied back.
pub open spec fn merged_event(live: EventState, pass: Map<usize, EventState>, id: usize) -> EventState {
    if pass.contains_key(id) {
        EventState { invocations: pass[id].invocations, executed: pass[id].executed, ..live }
    } else {
        live
    }
}

/// Locks or frees the mouse at the next window update.
pub fn set_mouse_locked<TF, TD, EF, ED>(engine: &mut Engine<TF, TD, EF, ED>, value: bool)
    requires
        old(engine).wf(),
    ensures
        final(engine).wf(),
        final(engine).update_info() == (WinsysUpdateInfo {
            mouse_locked: value,
            ..old(engine).update_info()
        }),
        final(engine).managers() == old(engine).managers(),
        final(engine).handler() == old(engine).handler(),
        final(engine).next_task_id() == old(engine).next_task_id(),
        final(engine).next_event_id() == old(engine).next_event_id(),
        final(engine).spec_done() == old(engine).spec_done(),
{
    engine.winsys_update_info_.mouse_locked = value;
}

/// An event repeated with an interval stays repeated, with that interval,
/// across frames until it is derepeated; in a frame it runs only where the
/// time since it last fired exceeds the interval by more than the margin,
/// and where it is due it runs and takes the frame's time as its timestamp.
pub proof fn lemma_repeat_persists<F, D>(
    a: EventHandler<F, D>,
    b: EventHandler<F, D>,
    id: usize,
    interval: u64,
    now: u64,
)
    requires
        a.wf(),
        events_frame_done(a, b, now),
        a.container().repeated().contains_key(id),
        a.container().repeated()[id] == Some(interval),
        a.events().contains_key(id),
    ensures
        b.container().repeated().contains_key(id),
        b.container().repeated()[id] == Some(interval),
        event_fires(a.events()[id], now, Some(interval)) ==> crate::timing::elapsed(
            now,
            a.events()[id].timestamp,
        ) > interval && b.events()[id].timestamp == now,
{
}

} // verus!
