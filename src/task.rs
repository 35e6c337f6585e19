//! A task: a named unit of recurring or one-shot work with a callback and
//! its payload.

use crate::timing::{due, elapsed_ns, is_due};
use vstd::prelude::*;

verus! {

/// Whether a task runs once or on every pass until it asks to be dropped.
#[derive(Clone, Copy, PartialEq, Eq, Debug, Structural)]
pub enum TaskEnum {
    Once,
    Repeat,
}

/// What a task's callback asks for: stay registered, or be removed.
#[derive(Clone, Copy, PartialEq, Eq, Debug, Structural)]
pub enum TaskOutput {
    Keep,
    Drop,
}

/// What a callback learns of the run that invoked it.
#[derive(Clone, Copy, Debug)]
pub struct TaskInfo {
    id_: usize,
    invocations_: usize,
    delta_: u64,
    type_: TaskEnum,
    thread_id_: usize,
}

impl TaskInfo {
    pub closed spec fn spec_id(&self) -> usize {
        self.id_
    }

    pub closed spec fn spec_invocations(&self) -> usize {
        self.invocations_
    }

    pub closed spec fn spec_deltatime(&self) -> u64 {
        self.delta_
    }

    pub closed spec fn spec_type(&self) -> TaskEnum {
        self.type_
    }

    pub closed spec fn spec_thread_id(&self) -> usize {
        self.thread_id_
    }

    pub fn id(&self) -> (r: usize)
        ensures
            r == self.spec_id(),
    {
        self.id_
    }

    /// The task's invocation count, this run included.
    pub fn invocations(&self) -> (r: usize)
        ensures
            r == self.spec_invocations(),
    {
        self.invocations_
    }

    /// Nanoseconds since the task's reference timestamp.
    pub fn deltatime(&self) -> (r: u64)
        ensures
            r == self.spec_deltatime(),
    {
        self.delta_
    }

    pub fn get_type(&self) -> (r: TaskEnum)
        ensures
            r == self.spec_type(),
    {
        self.type_
    }

    /// The index of the task manager that runs the task.
    pub fn thread_id(&self) -> (r: usize)
        ensures
            r == self.spec_thread_id(),
    {
        self.thread_id_
    }
}

/// A task's callback, invoked with the run's details and the task's payload.
pub trait TaskFuncTrait<D> {
    fn call(&self, info: &TaskInfo, data: &Option<D>) -> TaskOutput;
}

/// A task's callback that does not read a payload.
pub trait TaskFuncTraitWithoutArgs {
    fn call(&self, info: &TaskInfo) -> TaskOutput;
}

/// Lets a callback that takes no payload stand where one that does is asked for.
pub struct TaskFuncIgnoringData<G>(pub G);

impl<D, G: TaskFuncTraitWithoutArgs> TaskFuncTrait<D> for TaskFuncIgnoringData<G> {
    fn call(&self, info: &TaskInfo, data: &Option<D>) -> TaskOutput {
        self.0.call(info)
    }
}

/// The callback and the payload, replaced together.
pub struct TaskMutexedProperties<F, D> {
    func_: Option<F>,
    data_: Option<D>,
}

/// What a task's runs change: its invocation count and whether it fired
/// since the last timestamp update.
pub struct TaskArcedProperties<F, D> {
    invocations_: usize,
    executed: bool,
    mutexed_: TaskMutexedProperties<F, D>,
}

/// The key that orders tasks: by priority, highest first, then by id.
#[derive(Clone, Copy, PartialEq, Eq, Debug, Structural)]
pub struct TaskOrderStruct {
    pub id_: usize,
    priority_: isize,
}

/// Tuples order lexicographically, so this key sorts higher priorities first
/// and breaks ties by ascending id.
pub open spec fn order_key(id: usize, priority: isize) -> (i128, usize) {
    ((-priority) as i128, id)
}

impl TaskOrderStruct {
    pub closed spec fn spec_id(&self) -> usize {
        self.id_
    }

    pub closed spec fn spec_priority(&self) -> isize {
        self.priority_
    }

    pub fn priority(&self) -> (r: isize)
        ensures
            r == self.spec_priority(),
    {
        self.priority_
    }

    pub fn key(&self) -> (r: (i128, usize))
        ensures
            r == order_key(self.spec_id(), self.spec_priority()),
    {
        (-(self.priority_ as i128), self.id_)
    }
}

/// The state of a task that its runs read and change.
pub struct TaskState {
    pub id: usize,
    pub active: bool,
    pub invocations: usize,
    pub executed: bool,
    pub timestamp: u64,
    pub interval: Option<u64>,
    pub priority: isize,
    pub kind: TaskEnum,
}

/// A run of the task at `now` fires its callback.
pub open spec fn task_fires(s: TaskState, now: u64) -> bool {
    s.active && due(now, s.timestamp, s.interval)
}

/// The state after the task fired: one more invocation, marked as executed.
pub open spec fn task_after_fire(s: TaskState) -> TaskState {
    TaskState {
        invocations: if s.invocations < usize::MAX {
            (s.invocations + 1) as usize
        } else {
            s.invocations
        },
        executed: true,
        ..s
    }
}

/// The state after a timestamp update at `now`: a task that fired since the
/// last update takes `now` as its new reference time.
pub open spec fn task_after_update(s: TaskState, now: u64) -> TaskState {
    if s.executed {
        TaskState { executed: false, timestamp: now, ..s }
    } else {
        s
    }
}

pub struct Task<F, D> {
    id_: usize,
    active: bool,
    data: TaskArcedProperties<F, D>,
    priority_: isize,
    type_: TaskEnum,
    timestamp_: u64,
    interval_: Option<u64>,
}

impl<F, D> View for Task<F, D> {
    type V = TaskState;

    closed spec fn view(&self) -> TaskState {
        TaskState {
            id: self.id_,
            active: self.active,
            invocations: self.data.invocations_,
            executed: self.data.executed,
            timestamp: self.timestamp_,
            interval: self.interval_,
            priority: self.priority_,
            kind: self.type_,
        }
    }
}

impl<F, D> Task<F, D> {
    /// The callback; none stands for the default one.
    pub closed spec fn spec_func(&self) -> Option<F> {
        self.data.mutexed_.func_
    }

    /// The payload handed to the callback.
    pub closed spec fn spec_data(&self) -> Option<D> {
        self.data.mutexed_.data_
    }

    /// `self` and `other` hold the same callback and payload.
    pub open spec fn same_callback(&self, other: &Self) -> bool {
        self.spec_func() == other.spec_func() && self.spec_data() == other.spec_data()
    }

    /// A task under `id`, created at `now`: active, never run, priority zero
    /// and no interval. Without a callback a run keeps the task and does
    /// nothing else. Ids are not drawn here: the engine issues them from its
    /// counter, from 1 upwards, each above every id issued before (see
    /// `Engine::next_task_id`), so that 0 can stand for "no task".
    pub fn new(func: Option<F>, task_type: TaskEnum, id: usize, now: u64) -> (r: Self)
        requires
            id >= 1,
        ensures
            r@ == (TaskState {
                id,
                active: true,
                invocations: 0,
                executed: false,
                timestamp: now,
                interval: None,
                priority: 0,
                kind: task_type,
            }),
            r.spec_func() == func,
            r.spec_data() == None::<D>,
    {
        Task {
            id_: id,
            active: true,
            data: TaskArcedProperties {
                invocations_: 0,
                executed: false,
                mutexed_: TaskMutexedProperties { func_: func, data_: None },
            },
            priority_: 0,
            type_: task_type,
            timestamp_: now,
            interval_: None,
        }
    }

    /// Replaces the callback and the payload together.
    pub fn set_func(&mut self, func: F, data: D)
        ensures
            final(self)@ == old(self)@,
            final(self).spec_func() == Some(func),
            final(self).spec_data() == Some(data),
    {
        self.data.mutexed_ = TaskMutexedProperties { func_: Some(func), data_: Some(data) };
    }

    /// Takes `func` as the callback (none: the default one, which keeps the
    /// task) and drops the payload.
    pub fn replace_func(&mut self, func: Option<F>)
        ensures
            final(self)@ == old(self)@,
            final(self).spec_func() == func,
            final(self).spec_data() == None::<D>,
    {
        self.data.mutexed_ = TaskMutexedProperties { func_: func, data_: None };
    }

    /// Replaces the payload and keeps the callback.
    pub fn set_func_data(&mut self, data: D)
        ensures
            final(self)@ == old(self)@,
            final(self).spec_func() == old(self).spec_func(),
            final(self).spec_data() == Some(data),
    {
        self.data.mutexed_.data_ = Some(data);
    }

    pub fn set_interval(&mut self, interval: Option<u64>)
        ensures
            final(self).same_callback(old(self)),
            final(self)@ == (TaskState { interval, ..old(self)@ }),
    {
        self.interval_ = interval;
    }

    pub fn set_priority(&mut self, priority: isize)
        ensures
            final(self).same_callback(old(self)),
            final(self)@ == (TaskState { priority, ..old(self)@ }),
    {
        self.priority_ = priority;
    }

    pub fn set_active(&mut self, active: bool)
        ensures
            final(self).same_callback(old(self)),
            final(self)@ == (TaskState { active, ..old(self)@ }),
    {
        self.active = active;
    }

    /// A run at `now` would fire the callback.
    pub fn fires(&self, now: u64) -> (r: bool)
        ensures
            r == task_fires(self@, now),
    {
        self.active && is_due(now, self.timestamp_, self.interval_)
    }

    pub fn is_active(&self) -> (r: bool)
        ensures
            r == self@.active,
    {
        self.active
    }

    pub fn id(&self) -> (r: usize)
        ensures
            r == self@.id,
    {
        self.id_
    }

    pub fn get_type(&self) -> (r: TaskEnum)
        ensures
            r == self@.kind,
    {
        self.type_
    }

    pub fn interval(&self) -> (r: Option<u64>)
        ensures
            r == self@.interval,
    {
        self.interval_
    }

    pub fn priority(&self) -> (r: isize)
        ensures
            r == self@.priority,
    {
        self.priority_
    }

    pub fn timestamp(&self) -> (r: u64)
        ensures
            r == self@.timestamp,
    {
        self.timestamp_
    }

    pub fn executed(&self) -> (r: bool)
        ensures
            r == self@.executed,
    {
        self.data.executed
    }

    pub fn get_order_struct(&self) -> (r: TaskOrderStruct)
        ensures
            r.spec_id() == self@.id,
            r.spec_priority() == self@.priority,
    {
        TaskOrderStruct { id_: self.id_, priority_: self.priority_ }
    }

    pub fn invocations(&self) -> (r: usize)
        ensures
            r == self@.invocations,
    {
        self.data.invocations_
    }

    /// The timestamp update of a pass: a task that fired since the last one
    /// takes `updated_time` as its reference time; another keeps counting.
    pub fn update(&mut self, updated_time: u64)
        ensures
            final(self).same_callback(old(self)),
            final(self)@ == task_after_update(old(self)@, updated_time),
    {
        if self.data.executed {
            self.data.executed = false;
            self.timestamp_ = updated_time;
        }
    }

    /// Copies the run state (invocations, fired mark) of `other`.
    pub fn take_run_state(&mut self, other: &Task<F, D>)
        ensures
            final(self).same_callback(old(self)),
            final(self)@ == (TaskState {
                invocations: other@.invocations,
                executed: other@.executed,
                ..old(self)@
            }),
    {
        self.data.invocations_ = other.data.invocations_;
        self.data.executed = other.data.executed;
    }
}

impl<F: TaskFuncTrait<D>, D> Task<F, D> {
    /// Runs the task at `updated_time` for the manager `thread_id`. An
    /// inactive task, or one whose interval has not passed, does nothing and
    /// asks to be kept; otherwise the task counts the run, marks itself as
    /// executed and returns what its callback returns.
    pub fn execute(&mut self, updated_time: u64, thread_id: usize) -> (r: TaskOutput)
        ensures
            task_fires(old(self)@, updated_time) ==> final(self)@ == task_after_fire(old(self)@),
            !task_fires(old(self)@, updated_time) ==> final(self)@ == old(self)@ && r
                == TaskOutput::Keep,
    {
        if self.active && is_due(updated_time, self.timestamp_, self.interval_) {
            let delta = elapsed_ns(updated_time, self.timestamp_);
            if self.data.invocations_ < usize::MAX {
                self.data.invocations_ = self.data.invocations_ + 1;
            }
            self.data.executed = true;
            let info = TaskInfo {
                id_: self.id_,
                invocations_: self.data.invocations_,
                delta_: delta,
                type_: self.type_,
                thread_id_: thread_id,
            };
            match &self.data.mutexed_.func_ {
                Some(f) => f.call(&info, &self.data.mutexed_.data_),
                None => TaskOutput::Keep,
            }
        } else {
            TaskOutput::Keep
        }
    }
}

impl<F: Clone, D: Clone> Clone for Task<F, D> {
    fn clone(&self) -> (r: Self)
        ensures
            r@ == self@,
    {
        Task {
            id_: self.id_,
            active: self.active,
            data: TaskArcedProperties {
                invocations_: self.data.invocations_,
                executed: self.data.executed,
                mutexed_: TaskMutexedProperties {
                    func_: self.data.mutexed_.func_.clone(),
                    data_: self.data.mutexed_.data_.clone(),
                },
            },
            priority_: self.priority_,
            type_: self.type_,
            timestamp_: self.timestamp_,
            interval_: self.interval_,
        }
    }
}

} // verus!
