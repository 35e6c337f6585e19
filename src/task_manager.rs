//! The task manager: the owner of one task container, for one logical
//! thread of task ownership.

use crate::named::id_of;
use crate::task::{task_after_update, TaskEnum, TaskFuncTrait, TaskState};
use crate::seqs::{
    among_first, lemma_among_first_all, lemma_among_first_fresh, lemma_among_first_step,
};
use crate::task_container::{new_task_state, TaskContainer};
use vstd::prelude::*;

verus! {

pub struct TaskManager<F, D> {
    tasks_: TaskContainer<F, D>,
}

impl<F, D> TaskManager<F, D> {
    pub closed spec fn container(&self) -> TaskContainer<F, D> {
        self.tasks_
    }

    /// The state of each task, by id.
    pub open spec fn tasks(&self) -> Map<usize, TaskState> {
        self.container().tasks()
    }

    /// The name of each task, by id.
    pub open spec fn names(&self) -> Map<usize, Seq<char>> {
        self.container().names()
    }

    /// The callback of each task, by id.
    pub open spec fn funcs(&self) -> Map<usize, Option<F>> {
        self.container().funcs()
    }

    /// The payload of each task, by id.
    pub open spec fn payloads(&self) -> Map<usize, Option<D>> {
        self.container().payloads()
    }

    pub open spec fn wf(&self) -> bool {
        self.container().wf()
    }

    pub fn new() -> (r: Self)
        ensures
            r.wf(),
            r.tasks() == Map::<usize, TaskState>::empty(),
            r.names() == Map::<usize, Seq<char>>::empty(),
    {
        TaskManager { tasks_: TaskContainer::new() }
    }

    /// The live container, to read.
    pub fn tasks_ref(&self) -> (r: &TaskContainer<F, D>)
        ensures
            *r == self.container(),
    {
        &self.tasks_
    }

    /// Registers a task under `task_name` with the default callback, or
    /// resets the callback of the task that has the name already; the
    /// result is the task's id.
    pub fn create_task(&mut self, task_name: &str, type_in: TaskEnum, task_id: usize, now: u64) -> (r:
        usize)
        requires
            old(self).wf(),
            task_id >= 1,
            !old(self).tasks().contains_key(task_id),
        ensures
            final(self).wf(),
            match id_of(old(self).names(), task_name@) {
                Some(existing) => r == existing && final(self).tasks() == old(self).tasks()
                    && final(self).names() == old(self).names(),
                None => r == task_id && final(self).tasks() == old(self).tasks().insert(
                    task_id,
                    new_task_state(task_id, type_in, now),
                ) && final(self).names() == old(self).names().insert(task_id, task_name@),
            },
            r >= 1,
            final(self).funcs() == old(self).funcs().insert(r, None),
            final(self).payloads() == old(self).payloads().insert(r, None),
    {
        self.tasks_.insert(task_name, None, type_in, task_id, now)
    }

    /// Registers a task under `task_name` with `func` and no payload, or
    /// gives `func` to the task that has the name already; the result is
    /// the task's id.
    pub fn create_task_func(
        &mut self,
        task_name: &str,
        func: F,
        type_in: TaskEnum,
        task_id: usize,
        now: u64,
    ) -> (r: usize)
        requires
            old(self).wf(),
            task_id >= 1,
            !old(self).tasks().contains_key(task_id),
        ensures
            final(self).wf(),
            match id_of(old(self).names(), task_name@) {
                Some(existing) => r == existing && final(self).tasks() == old(self).tasks()
                    && final(self).names() == old(self).names(),
                None => r == task_id && final(self).tasks() == old(self).tasks().insert(
                    task_id,
                    new_task_state(task_id, type_in, now),
                ) && final(self).names() == old(self).names().insert(task_id, task_name@),
            },
            r >= 1,
            final(self).funcs() == old(self).funcs().insert(r, Some(func)),
            final(self).payloads() == old(self).payloads().insert(r, None),
    {
        self.tasks_.insert(task_name, Some(func), type_in, task_id, now)
    }

    pub fn set_task_func(&mut self, task_id: usize, func: F, data: D) -> (r: Option<bool>)
        requires
            old(self).wf(),
        ensures
            final(self).wf(),
            r is Some ==> final(self).funcs() == old(self).funcs().insert(task_id, Some(func))
                && final(self).payloads() == old(self).payloads().insert(task_id, Some(data)),
            final(self).tasks() == old(self).tasks(),
            final(self).names() == old(self).names(),
            r == (if old(self).tasks().contains_key(task_id) {
                Some(true)
            } else {
                None::<bool>
            }),
            r is None ==> *final(self) == *old(self),
    {
        self.tasks_.set_func(task_id, func, data)
    }

    pub fn set_task_data(&mut self, task_id: usize, data: D) -> (r: Option<bool>)
        requires
            old(self).wf(),
        ensures
            final(self).wf(),
            final(self).funcs() == old(self).funcs(),
            r is Some ==> final(self).payloads() == old(self).payloads().insert(task_id, Some(data)),
            final(self).tasks() == old(self).tasks(),
            final(self).names() == old(self).names(),
            r == (if old(self).tasks().contains_key(task_id) {
                Some(true)
            } else {
                None::<bool>
            }),
            r is None ==> *final(self) == *old(self),
    {
        self.tasks_.set_func_data(task_id, data)
    }

    pub fn set_task_interval(&mut self, task_id: usize, interval: Option<u64>) -> (r: Option<bool>)
        requires
            old(self).wf(),
        ensures
            final(self).wf(),
            final(self).funcs() == old(self).funcs(),
            final(self).payloads() == old(self).payloads(),
            final(self).names() == old(self).names(),
            old(self).tasks().contains_key(task_id) ==> r == Some(true) && final(self).tasks()
                == old(self).tasks().insert(
                task_id,
                TaskState { interval, ..old(self).tasks()[task_id] },
            ),
            !old(self).tasks().contains_key(task_id) ==> r is None && final(self).tasks()
                == old(self).tasks(),
    {
        self.tasks_.set_interval(task_id, interval)
    }

    pub fn set_task_priority(&mut self, task_id: usize, priority: isize) -> (r: Option<bool>)
        requires
            old(self).wf(),
        ensures
            final(self).wf(),
            final(self).names() == old(self).names(),
            old(self).tasks().contains_key(task_id) ==> r == Some(true) && final(self).tasks()
                == old(self).tasks().insert(
                task_id,
                TaskState { priority, ..old(self).tasks()[task_id] },
            ),
            !old(self).tasks().contains_key(task_id) ==> r is None && final(self).tasks()
                == old(self).tasks(),
    {
        self.tasks_.set_priority(task_id, priority)
    }

    pub fn set_task_active(&mut self, task_id: usize, active: bool) -> (r: Option<bool>)
        requires
            old(self).wf(),
        ensures
            final(self).wf(),
            final(self).names() == old(self).names(),
            old(self).tasks().contains_key(task_id) ==> r == Some(true) && final(self).tasks()
                == old(self).tasks().insert(
                task_id,
                TaskState { active, ..old(self).tasks()[task_id] },
            ),
            !old(self).tasks().contains_key(task_id) ==> r is None && final(self).tasks()
                == old(self).tasks(),
    {
        self.tasks_.set_active(task_id, active)
    }

    pub fn get_task_name(&self, task_id: usize) -> (r: Option<&str>)
        ensures
            match r {
                Some(s) => self.names().contains_key(task_id) && self.names()[task_id] == s@,
                None => !self.names().contains_key(task_id),
            },
    {
        self.tasks_.get_name(task_id)
    }

    pub fn get_task_id(&self, task_name: &str) -> (r: Option<usize>)
        requires
            self.wf(),
        ensures
            r == id_of(self.names(), task_name@),
    {
        self.tasks_.get_id(task_name)
    }

    /// The timestamp update of a pass, for every task.
    pub fn update_task_timestamps(&mut self, updated_time: u64)
        requires
            old(self).wf(),
        ensures
            final(self).wf(),
            final(self).names() == old(self).names(),
            final(self).tasks().dom() == old(self).tasks().dom(),
            forall|id: usize| #[trigger]
                old(self).tasks().contains_key(id) ==> final(self).tasks()[id] == task_after_update(
                    old(self).tasks()[id],
                    updated_time,
                ),
    {
        let ids = self.tasks_.ids();
        let ghost tasks0 = self.tasks();
        let mut i: usize = 0;
        while i < ids.len()
            invariant
                self.wf(),
                ids@.no_duplicates(),
                forall|k: usize| tasks0.contains_key(k) <==> ids@.contains(k),
                0 <= i <= ids.len(),
                self.names() == old(self).names(),
                self.tasks().dom() == tasks0.dom(),
                forall|id: usize| #[trigger]
                    tasks0.contains_key(id) ==> self.tasks()[id] == (if among_first(ids@, i as int, id) {
                        task_after_update(tasks0[id], updated_time)
                    } else {
                        tasks0[id]
                    }),
            decreases ids.len() - i,
        {
            let id = ids[i];
            proof {
                lemma_among_first_fresh(ids@, i as int);
                lemma_among_first_step(ids@, i as int);
                assert(ids@.contains(ids@[i as int]));
            }
            let ghost before = self.tasks();
            self.tasks_.update_task(id, updated_time);
            proof {
                assert(self.tasks().dom() =~= before.dom());
            }
            i += 1;
        }
        proof {
            lemma_among_first_all(ids@);
        }
    }

    /// Removes each task of `to_be_removed`; ids that no task holds are
    /// passed over.
    pub fn remove_tasks(&mut self, to_be_removed: Vec<usize>)
        requires
            old(self).wf(),
        ensures
            final(self).wf(),
            final(self).tasks() == old(self).tasks().remove_keys(to_be_removed@.to_set()),
            final(self).names() == old(self).names().remove_keys(to_be_removed@.to_set()),
    {
        let ghost tasks0 = self.tasks();
        let ghost names0 = self.names();
        let mut i: usize = 0;
        while i < to_be_removed.len()
            invariant
                self.wf(),
                0 <= i <= to_be_removed.len(),
                self.tasks() == tasks0.remove_keys(to_be_removed@.take(i as int).to_set()),
                self.names() == names0.remove_keys(to_be_removed@.take(i as int).to_set()),
            decreases to_be_removed.len() - i,
        {
            self.tasks_.remove(to_be_removed[i]);
            proof {
                let s0 = to_be_removed@.take(i as int).to_set();
                let s1 = to_be_removed@.take(i + 1).to_set();
                assert(to_be_removed@.take(i + 1) =~= to_be_removed@.take(i as int).push(
                    to_be_removed@[i as int],
                ));
                crate::seqs::lemma_push_contains(
                    to_be_removed@.take(i as int),
                    to_be_removed@[i as int],
                );
                assert(s1 =~= s0.insert(to_be_removed@[i as int]));
                assert(self.tasks() =~= tasks0.remove_keys(s1));
                assert(self.names() =~= names0.remove_keys(s1));
            }
            i += 1;
        }
        assert(to_be_removed@.take(i as int) =~= to_be_removed@);
    }

    /// Copies the run state that a pass over a snapshot left in `pass`.
    pub fn take_run_states(&mut self, pass: &TaskContainer<F, D>)
        requires
            old(self).wf(),
        ensures
            final(self).wf(),
            final(self).names() == old(self).names(),
            final(self).tasks().dom() == old(self).tasks().dom(),
            forall|id: usize| #[trigger]
                old(self).tasks().contains_key(id) ==> final(self).tasks()[id] == (
                if pass.tasks().contains_key(id) {
                    TaskState {
                        invocations: pass.tasks()[id].invocations,
                        executed: pass.tasks()[id].executed,
                        ..old(self).tasks()[id]
                    }
                } else {
                    old(self).tasks()[id]
                }),
    {
        self.tasks_.take_run_states(pass)
    }
}

impl<F: Clone, D: Clone> TaskManager<F, D> {
    /// A frozen copy of the container, for a pass that runs while this
    /// manager goes on taking registrations.
    pub fn consume_tasks(&self) -> (r: TaskContainer<F, D>)
        requires
            self.wf(),
        ensures
            r.wf(),
            r.tasks() == self.tasks(),
            r.names() == self.names(),
            r.order() == self.container().order(),
    {
        self.tasks_.consume()
    }
}

impl<F: TaskFuncTrait<D>, D> TaskManager<F, D> {
    /// A pass over the live container itself, for a single-threaded loop.
    pub fn run_tasks(&mut self, thread_id: usize, updated_time: u64) -> (r: Vec<usize>)
        requires
            old(self).wf(),
        ensures
            final(self).wf(),
            final(self).names() == old(self).names(),
            final(self).container().order() == old(self).container().order(),
            final(self).tasks().dom() == old(self).tasks().dom(),
            forall|id: usize| #[trigger]
                old(self).tasks().contains_key(id) ==> final(self).tasks()[id]
                    == crate::task_container::task_after_pass(old(self).tasks()[id], updated_time),
            exists|outs: Seq<crate::task::TaskOutput>|
                crate::task_container::outputs_fit(
                    old(self).tasks(),
                    old(self).container().order_ids(),
                    outs,
                    updated_time,
                ) && r@ == crate::task_container::removal_list(
                    old(self).tasks(),
                    old(self).container().order_ids(),
                    outs,
                    updated_time,
                ),
    {
        self.tasks_.run_tasks(thread_id, updated_time)
    }
}

} // verus!
