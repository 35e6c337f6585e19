//! The task container: tasks under names, and the order in which a pass
//! runs them.

use crate::named::{id_of, names_unique, BaseContainer};
use crate::task::{
    order_key, task_after_fire, task_after_update, task_fires, Task, TaskEnum, TaskFuncTrait,
    TaskOutput, TaskState,
};
use crate::seqs::{
    among_first, lemma_among_first_all, lemma_among_first_fresh, lemma_among_first_step,
    lemma_push_contains,
};
use sorted_vec::SortedSet;
use std::collections::HashMap;
use vstd::prelude::*;

verus! {

broadcast use vstd::std_specs::hash::group_hash_axioms;

#[verifier::external_type_specification]
#[verifier::external_body]
#[verifier::reject_recursive_types(T)]
pub struct ExSortedSet<T: Ord>(SortedSet<T>);

/// The keys that a sorted set of order keys holds, in its order.
pub uninterp spec fn sorted_keys(s: SortedSet<(i128, usize)>) -> Seq<(i128, usize)>;

/// The lexicographic order of tuples.
pub open spec fn key_lt(a: (i128, usize), b: (i128, usize)) -> bool {
    a.0 < b.0 || (a.0 == b.0 && a.1 < b.1)
}

pub open spec fn strictly_ascending(s: Seq<(i128, usize)>) -> bool {
    forall|i: int, j: int| #![trigger s[i], s[j]] 0 <= i < j < s.len() ==> key_lt(s[i], s[j])
}

/// Relies on sorted_vec's `SortedSet::new`: a new set holds no key.
#[verifier::external_body]
fn keys_new() -> (r: SortedSet<(i128, usize)>)
    ensures
        sorted_keys(r).len() == 0,
{
    SortedSet::new()
}

/// Relies on sorted_vec's `SortedSet::push`: the key goes to its sorted
/// place, replacing an equal key, and the set stays strictly ascending.
#[verifier::external_body]
fn keys_push(s: &mut SortedSet<(i128, usize)>, k: (i128, usize))
    ensures
        sorted_keys(*final(s)).to_set() == sorted_keys(*old(s)).to_set().insert(k),
        strictly_ascending(sorted_keys(*final(s))),
{
    let _ = s.push(k);
}

/// Relies on sorted_vec's `SortedSet::remove_item`: the key leaves the set,
/// which stays strictly ascending.
#[verifier::external_body]
fn keys_remove(s: &mut SortedSet<(i128, usize)>, k: (i128, usize))
    ensures
        sorted_keys(*final(s)).to_set() == sorted_keys(*old(s)).to_set().remove(k),
        strictly_ascending(sorted_keys(*final(s))),
{
    let _ = s.remove_item(&k);
}

/// Relies on sorted_vec's `SortedSet::clear`: no key is left.
#[verifier::external_body]
fn keys_clear(s: &mut SortedSet<(i128, usize)>)
    ensures
        sorted_keys(*final(s)).len() == 0,
{
    s.clear()
}

/// Relies on sorted_vec's derived `Clone` for `SortedSet`: the same keys.
#[verifier::external_body]
fn keys_clone(s: &SortedSet<(i128, usize)>) -> (r: SortedSet<(i128, usize)>)
    ensures
        sorted_keys(r) == sorted_keys(*s),
{
    s.clone()
}

/// Relies on sorted_vec's `SortedSet` dereferencing to its sorted vector:
/// the keys in ascending order.
#[verifier::external_body]
fn keys_list(s: &SortedSet<(i128, usize)>) -> (r: Vec<(i128, usize)>)
    ensures
        r@ == sorted_keys(*s),
        strictly_ascending(r@),
{
    s.to_vec()
}

/// A pass's results fit the tasks it ran: one output per task, and a task
/// that did not fire asked to be kept.
pub open spec fn outputs_fit(
    tasks: Map<usize, TaskState>,
    ids: Seq<usize>,
    outs: Seq<TaskOutput>,
    now: u64,
) -> bool {
    &&& outs.len() == ids.len()
    &&& forall|i: int|
        0 <= i < ids.len() && !task_fires(tasks[ids[i]], now) ==> #[trigger] outs[i]
            == TaskOutput::Keep
}

/// A run of a task in state `s` at `now` that returned `out` removes it: it
/// asked to be dropped, or it runs once and fired.
pub open spec fn run_removes(s: TaskState, out: TaskOutput, now: u64) -> bool {
    out == TaskOutput::Drop || (s.kind == TaskEnum::Once && task_fires(s, now))
}

/// The ids that a pass at `now` over `ids` with outputs `outs` removes, in
/// pass order: a task that asked to be dropped, and a task that runs once
/// and fired.
pub open spec fn removal_list(
    tasks: Map<usize, TaskState>,
    ids: Seq<usize>,
    outs: Seq<TaskOutput>,
    now: u64,
) -> Seq<usize>
    decreases ids.len(),
{
    if ids.len() == 0 || outs.len() == 0 {
        Seq::empty()
    } else {
        let prev = removal_list(tasks, ids.drop_last(), outs.drop_last(), now);
        if run_removes(tasks[ids.last()], outs.last(), now) {
            prev.push(ids.last())
        } else {
            prev
        }
    }
}

/// An id is in the removal list of a pass exactly when the pass ran it at a
/// position where that run removes it.
pub proof fn lemma_removal_list_members(
    tasks: Map<usize, TaskState>,
    ids: Seq<usize>,
    outs: Seq<TaskOutput>,
    now: u64,
)
    requires
        outs.len() == ids.len(),
    ensures
        forall|x: usize|
            #[trigger] removal_list(tasks, ids, outs, now).contains(x) <==> exists|i: int|
                0 <= i < ids.len() && ids[i] == x && run_removes(tasks[x], outs[i], now),
    decreases ids.len(),
{
    if ids.len() > 0 {
        let ids0 = ids.drop_last();
        let outs0 = outs.drop_last();
        lemma_removal_list_members(tasks, ids0, outs0, now);
        let prev = removal_list(tasks, ids0, outs0, now);
        let last = ids.len() - 1;
        assert forall|x: usize|
            #[trigger] removal_list(tasks, ids, outs, now).contains(x) <==> exists|i: int|
                0 <= i < ids.len() && ids[i] == x && run_removes(tasks[x], outs[i], now) by {
            lemma_push_contains(prev, ids.last());
            if exists|i: int| 0 <= i < ids.len() && ids[i] == x && run_removes(tasks[x], outs[i], now) {
                let i = choose|i: int|
                    0 <= i < ids.len() && ids[i] == x && run_removes(tasks[x], outs[i], now);
                if i < last {
                    assert(ids0[i] == x && outs0[i] == outs[i]);
                }
            }
            if prev.contains(x) {
                let i = choose|i: int|
                    0 <= i < ids0.len() && ids0[i] == x && run_removes(tasks[x], outs0[i], now);
                assert(ids[i] == x && outs[i] == outs0[i]);
            }
        }
    }
}

/// A task that runs once and fires in a pass is in that pass's removal
/// list, whatever its callback returned.
pub proof fn lemma_once_task_removed(
    tasks: Map<usize, TaskState>,
    ids: Seq<usize>,
    outs: Seq<TaskOutput>,
    now: u64,
    id: usize,
)
    requires
        outs.len() == ids.len(),
        ids.contains(id),
        tasks[id].kind == TaskEnum::Once,
        task_fires(tasks[id], now),
    ensures
        removal_list(tasks, ids, outs, now).contains(id),
{
    lemma_removal_list_members(tasks, ids, outs, now);
    let i = choose|i: int| 0 <= i < ids.len() && ids[i] == id;
    assert(ids[i] == id);
}

/// A task that runs once and does not fire in a pass (inactive, or its
/// interval not passed) is not removed by it: the outputs of a pass fit it,
/// so the task asked for nothing.
pub proof fn lemma_unfired_once_task_kept(
    tasks: Map<usize, TaskState>,
    ids: Seq<usize>,
    outs: Seq<TaskOutput>,
    now: u64,
    id: usize,
)
    requires
        outputs_fit(tasks, ids, outs, now),
        tasks[id].kind == TaskEnum::Once,
        !task_fires(tasks[id], now),
    ensures
        !removal_list(tasks, ids, outs, now).contains(id),
{
    lemma_removal_list_members(tasks, ids, outs, now);
    if removal_list(tasks, ids, outs, now).contains(id) {
        let i = choose|i: int| 0 <= i < ids.len() && ids[i] == id && run_removes(tasks[id], outs[i], now);
        assert(outs[i] == TaskOutput::Keep);
    }
}

/// A repeating task that a pass ran once is in its removal list exactly
/// when its callback asked to be dropped: one that returned `Keep` stays.
pub proof fn lemma_repeat_task_kept_unless_dropped(
    tasks: Map<usize, TaskState>,
    ids: Seq<usize>,
    outs: Seq<TaskOutput>,
    now: u64,
    i: int,
)
    requires
        outs.len() == ids.len(),
        ids.no_duplicates(),
        0 <= i < ids.len(),
        tasks[ids[i]].kind == TaskEnum::Repeat,
    ensures
        removal_list(tasks, ids, outs, now).contains(ids[i]) <==> outs[i] == TaskOutput::Drop,
{
    lemma_removal_list_members(tasks, ids, outs, now);
    if removal_list(tasks, ids, outs, now).contains(ids[i]) {
        let j = choose|j: int|
            0 <= j < ids.len() && ids[j] == ids[i] && run_removes(tasks[ids[i]], outs[j], now);
        assert(j == i);
    }
}

/// A task with an interval, active and below the largest count, counts a
/// run in a pass exactly when the time since its reference timestamp
/// exceeds the interval by more than the margin; otherwise the pass leaves
/// it as it was.
pub proof fn lemma_task_interval_gating(s: TaskState, now: u64, i: u64)
    requires
        s.active,
        s.interval == Some(i),
        s.invocations < usize::MAX,
    ensures
        task_after_pass(s, now).invocations == s.invocations + 1 <==> crate::timing::elapsed(
            now,
            s.timestamp,
        ) as int - i as int > crate::timing::FIRE_MARGIN_NS as int,
        !task_fires(s, now) ==> task_after_pass(s, now) == s,
{
}

/// A task's state after a pass at `now`.
pub open spec fn task_after_pass(s: TaskState, now: u64) -> TaskState {
    if task_fires(s, now) {
        task_after_fire(s)
    } else {
        s
    }
}

pub struct TaskContainer<F, D> {
    tasks_list_: BaseContainer<Task<F, D>>,
    sorted_tasks_: SortedSet<(i128, usize)>,
    happened_tasks_counter_: HashMap<usize, u32>,
}

impl<F, D> TaskContainer<F, D> {
    /// The state of each task, by id.
    pub closed spec fn tasks(&self) -> Map<usize, TaskState> {
        self.tasks_list_.elems().map_values(|t: Task<F, D>| t@)
    }

    /// The name of each task, by id.
    pub closed spec fn names(&self) -> Map<usize, Seq<char>> {
        self.tasks_list_.names()
    }

    /// The callback of each task, by id; none stands for the default one.
    pub closed spec fn funcs(&self) -> Map<usize, Option<F>> {
        self.tasks_list_.elems().map_values(|t: Task<F, D>| t.spec_func())
    }

    /// The payload of each task, by id.
    pub closed spec fn payloads(&self) -> Map<usize, Option<D>> {
        self.tasks_list_.elems().map_values(|t: Task<F, D>| t.spec_data())
    }

    /// The order keys, in the order in which a pass runs the tasks.
    pub closed spec fn order(&self) -> Seq<(i128, usize)> {
        sorted_keys(self.sorted_tasks_)
    }

    pub closed spec fn list_wf(&self) -> bool {
        self.tasks_list_.wf()
    }

    /// How many times each task fired in the last pass (a task fires at
    /// most once per pass); a task that is not here did not fire.
    pub closed spec fn happened(&self) -> Map<usize, u32> {
        self.happened_tasks_counter_@
    }

    /// How many times the task under `task_id` fired in the last pass.
    pub fn happened_count(&self, task_id: usize) -> (r: u32)
        ensures
            r == (if self.happened().contains_key(task_id) {
                self.happened()[task_id]
            } else {
                0
            }),
    {
        match self.happened_tasks_counter_.get(&task_id) {
            Some(n) => *n,
            None => 0,
        }
    }

    /// The ids in the order in which a pass runs them.
    pub open spec fn order_ids(&self) -> Seq<usize> {
        self.order().map_values(|k: (i128, usize)| k.1)
    }

    /// Each task is under its own id, which is not 0, and has one name; the order holds
    /// exactly one key per task, made of its priority and id, ascending.
    pub open spec fn wf(&self) -> bool {
        &&& self.list_wf()
        &&& self.tasks().dom() == self.names().dom()
        &&& names_unique(self.names())
        &&& forall|id: usize| #[trigger]
            self.tasks().contains_key(id) ==> self.tasks()[id].id == id && id >= 1
        &&& strictly_ascending(self.order())
        &&& forall|k: (i128, usize)| #[trigger]
            self.order().contains(k) <==> (self.tasks().contains_key(k.1) && k == order_key(
                k.1,
                self.tasks()[k.1].priority,
            ))
    }

    proof fn lemma_wf(&self)
        requires
            self.list_wf(),
        ensures
            self.tasks().dom() == self.names().dom(),
            names_unique(self.names()),
    {
        assert(self.tasks().dom() =~= self.names().dom());
    }

    /// In a well-formed container the pass order names each task once.
    pub proof fn lemma_order_ids(&self)
        requires
            self.wf(),
        ensures
            self.order_ids().len() == self.order().len(),
            self.order_ids().no_duplicates(),
            forall|id: usize|
                self.tasks().contains_key(id) <==> #[trigger] self.order_ids().contains(id),
    {
        let o = self.order();
        let ids = self.order_ids();
        assert forall|i: int, j: int| 0 <= i < ids.len() && 0 <= j < ids.len() && i != j implies ids[i]
            != ids[j] by {
            assert(o.contains(o[i]));
            assert(o.contains(o[j]));
            if i < j {
                assert(key_lt(o[i], o[j]));
            } else {
                assert(key_lt(o[j], o[i]));
            }
        }
        assert forall|id: usize| self.tasks().contains_key(id) implies #[trigger] ids.contains(id) by {
            let k = order_key(id, self.tasks()[id].priority);
            assert(o.contains(k));
            let i = choose|i: int| 0 <= i < o.len() && o[i] == k;
            assert(ids[i] == id);
        }
        assert forall|id: usize| #[trigger] ids.contains(id) implies self.tasks().contains_key(id) by {
            let i = choose|i: int| 0 <= i < ids.len() && ids[i] == id;
            assert(o.contains(o[i]));
        }
    }

    pub fn new() -> (r: Self)
        ensures
            r.wf(),
            r.tasks() == Map::<usize, TaskState>::empty(),
            r.names() == Map::<usize, Seq<char>>::empty(),
    {
        let r = TaskContainer {
            tasks_list_: BaseContainer::new(),
            sorted_tasks_: keys_new(),
            happened_tasks_counter_: HashMap::new(),
        };
        assert(r.tasks() =~= Map::<usize, TaskState>::empty());
        r
    }

    /// The id of each task, once.
    pub fn ids(&self) -> (r: Vec<usize>)
        requires
            self.wf(),
        ensures
            r@.no_duplicates(),
            forall|k: usize| self.tasks().contains_key(k) <==> r@.contains(k),
    {
        self.tasks_list_.ids()
    }

    pub fn len(&self) -> (r: usize)
        ensures
            r == self.tasks().len(),
    {
        assert(self.tasks().dom() =~= self.tasks_list_.elems().dom());
        self.tasks_list_.len()
    }

    pub fn contains(&self, task_id: usize) -> (r: bool)
        ensures
            r == self.tasks().contains_key(task_id),
    {
        self.tasks_list_.contains(task_id)
    }

    pub fn contains_name(&self, task_name: &str) -> (r: bool)
        requires
            self.wf(),
        ensures
            r == (id_of(self.names(), task_name@) is Some),
    {
        self.tasks_list_.contains_name(task_name)
    }

    pub fn get_name(&self, task_id: usize) -> (r: Option<&str>)
        ensures
            match r {
                Some(s) => self.names().contains_key(task_id) && self.names()[task_id] == s@,
                None => !self.names().contains_key(task_id),
            },
    {
        self.tasks_list_.get_name(task_id)
    }

    pub fn get_id(&self, task_name: &str) -> (r: Option<usize>)
        requires
            self.wf(),
        ensures
            r == id_of(self.names(), task_name@),
    {
        self.tasks_list_.get_id(task_name)
    }

    /// The state of the task under `task_id`.
    pub fn get_state(&self, task_id: usize) -> (r: Option<TaskState>)
        ensures
            r == (if self.tasks().contains_key(task_id) {
                Some(self.tasks()[task_id])
            } else {
                None::<TaskState>
            }),
    {
        match self.tasks_list_.get(task_id) {
            Some(t) => Some(
                TaskState {
                    id: t.id(),
                    active: t.is_active(),
                    invocations: t.invocations(),
                    executed: t.executed(),
                    timestamp: t.timestamp(),
                    interval: t.interval(),
                    priority: t.priority(),
                    kind: t.get_type(),
                },
            ),
            None => None,
        }
    }

    /// Registers a new task under `task_id` and `name`, unless a task has
    /// that name already: then nothing changes and the result is 0.
    pub fn insert_no_overwrite(
        &mut self,
        name: &str,
        func: Option<F>,
        task_type: TaskEnum,
        task_id: usize,
        now: u64,
    ) -> (r: usize)
        requires
            old(self).wf(),
            task_id >= 1,
            !old(self).tasks().contains_key(task_id),
        ensures
            final(self).wf(),
            id_of(old(self).names(), name@) is Some ==> r == 0 && *final(self) == *old(self),
            id_of(old(self).names(), name@) is None ==> r == task_id && final(self).tasks()
                == old(self).tasks().insert(task_id, new_task_state(task_id, task_type, now))
                && final(self).names() == old(self).names().insert(task_id, name@),
    {
        if !self.tasks_list_.contains_name(name) {
            self.add_new(name, func, task_type, task_id, now);
            task_id
        } else {
            0
        }
    }

    fn add_new(&mut self, name: &str, func: Option<F>, task_type: TaskEnum, task_id: usize, now: u64)
        requires
            old(self).wf(),
            task_id >= 1,
            !old(self).tasks().contains_key(task_id),
            id_of(old(self).names(), name@) is None,
        ensures
            final(self).wf(),
            final(self).tasks() == old(self).tasks().insert(
                task_id,
                new_task_state(task_id, task_type, now),
            ),
            final(self).names() == old(self).names().insert(task_id, name@),
            final(self).funcs() == old(self).funcs().insert(task_id, func),
            final(self).payloads() == old(self).payloads().insert(task_id, None),
    {
        proof {
            self.lemma_wf();
        }
        let ghost funcs0 = self.funcs();
        let ghost payloads0 = self.payloads();
        let ghost func0 = func;
        let ghost names0 = self.names();
        let ghost tasks0 = self.tasks();
        let ghost order0 = self.order();
        let new_task = Task::new(func, task_type, task_id, now);
        let key = new_task.get_order_struct().key();
        self.tasks_list_.insert(task_id, new_task, name);
        keys_push(&mut self.sorted_tasks_, key);
        proof {
            assert forall|k: usize| names0.contains_key(k) implies names0[k] != name@ by {
                if names0[k] == name@ {
                    assert(exists|k: usize| names0.contains_key(k) && names0[k] == name@);
                }
            }
            assert(self.names() =~= names0.insert(task_id, name@));
            assert(self.tasks() =~= tasks0.insert(task_id, new_task_state(task_id, task_type, now)));
            assert(self.funcs() =~= funcs0.insert(task_id, func0));
            assert(self.payloads() =~= payloads0.insert(task_id, None));
            assert(order0.to_set().contains(order0[0]) || order0.len() == 0);
            assert forall|k: (i128, usize)| #[trigger]
                self.order().contains(k) <==> (self.tasks().contains_key(k.1) && k == order_key(
                    k.1,
                    self.tasks()[k.1].priority,
                )) by {
                assert(self.order().to_set().contains(k) == self.order().contains(k));
                assert(order0.to_set().contains(k) == order0.contains(k));
            }
        }
    }

    /// Registers `func` under `name`. Where a task has that name already, it
    /// keeps its id, kind and state and takes `func` with no payload;
    /// otherwise a new task under `task_id` is added.
    /// `task_id` is the next id of the engine's counter, which issues ids
    /// from 1 upwards, each above every id issued before.
    pub fn insert(&mut self, name: &str, func: Option<F>, task_type: TaskEnum, task_id: usize, now: u64) -> (r:
        usize)
        requires
            old(self).wf(),
            task_id >= 1,
            !old(self).tasks().contains_key(task_id),
        ensures
            final(self).wf(),
            final(self).names() == (if id_of(old(self).names(), name@) is Some {
                old(self).names()
            } else {
                old(self).names().insert(task_id, name@)
            }),
            match id_of(old(self).names(), name@) {
                Some(existing) => r == existing && final(self).tasks() == old(self).tasks(),
                None => r == task_id && final(self).tasks() == old(self).tasks().insert(
                    task_id,
                    new_task_state(task_id, task_type, now),
                ),
            },
            r >= 1,
            final(self).funcs() == old(self).funcs().insert(r, func),
            final(self).payloads() == old(self).payloads().insert(r, None),
    {
        let ghost func0 = func;
        match self.tasks_list_.get_id(name) {
            Some(existing) => {
                proof {
                    self.lemma_wf();
                }
                let ghost tasks0 = self.tasks();
                let ghost funcs0 = self.funcs();
                let ghost payloads0 = self.payloads();
                let taken = self.tasks_list_.take(existing);
                if let Some(mut task) = taken {
                    task.replace_func(func);
                    self.tasks_list_.put(existing, task);
                }
                proof {
                    assert(self.tasks_list_.elems().dom() =~= old(self).tasks_list_.elems().dom());
                    assert(self.tasks() =~= tasks0);
                    assert(self.funcs() =~= funcs0.insert(existing, func0));
                    assert(self.payloads() =~= payloads0.insert(existing, None));
                }
                existing
            },
            None => {
                self.add_new(name, func, task_type, task_id, now);
                task_id
            },
        }
    }

    pub fn set_func(&mut self, task_id: usize, func: F, data: D) -> (r: Option<bool>)
        requires
            old(self).wf(),
        ensures
            final(self).wf(),
            final(self).tasks() == old(self).tasks(),
            final(self).names() == old(self).names(),
            r is Some ==> final(self).funcs() == old(self).funcs().insert(task_id, Some(func))
                && final(self).payloads() == old(self).payloads().insert(task_id, Some(data)),
            r == (if old(self).tasks().contains_key(task_id) {
                Some(true)
            } else {
                None::<bool>
            }),
            r is None ==> *final(self) == *old(self),
    {
        match self.tasks_list_.get(task_id) {
            Some(_) => {
                let ghost tasks0 = self.tasks();
                let ghost funcs0 = self.funcs();
                let ghost payloads0 = self.payloads();
                let ghost func0 = func;
                let ghost data0 = data;
                let taken = self.tasks_list_.take(task_id);
                if let Some(mut task) = taken {
                    task.set_func(func, data);
                    self.tasks_list_.put(task_id, task);
                }
                proof {
                    assert(self.tasks_list_.elems().dom() =~= old(self).tasks_list_.elems().dom());
                    assert(self.tasks() =~= tasks0);
                    assert(self.funcs() =~= funcs0.insert(task_id, Some(func0)));
                    assert(self.payloads() =~= payloads0.insert(task_id, Some(data0)));
                }
                Some(true)
            },
            None => None,
        }
    }

    pub fn set_func_data(&mut self, task_id: usize, data: D) -> (r: Option<bool>)
        requires
            old(self).wf(),
        ensures
            final(self).wf(),
            final(self).tasks() == old(self).tasks(),
            final(self).names() == old(self).names(),
            final(self).funcs() == old(self).funcs(),
            r is Some ==> final(self).payloads() == old(self).payloads().insert(task_id, Some(data)),
            r == (if old(self).tasks().contains_key(task_id) {
                Some(true)
            } else {
                None::<bool>
            }),
            r is None ==> *final(self) == *old(self),
    {
        match self.tasks_list_.get(task_id) {
            Some(_) => {
                let ghost tasks0 = self.tasks();
                let ghost funcs0 = self.funcs();
                let ghost payloads0 = self.payloads();
                let ghost data0 = data;
                let taken = self.tasks_list_.take(task_id);
                if let Some(mut task) = taken {
                    task.set_func_data(data);
                    self.tasks_list_.put(task_id, task);
                }
                proof {
                    assert(self.tasks_list_.elems().dom() =~= old(self).tasks_list_.elems().dom());
                    assert(self.tasks() =~= tasks0);
                    assert(self.funcs() =~= funcs0);
                    assert(self.payloads() =~= payloads0.insert(task_id, Some(data0)));
                }
                Some(true)
            },
            None => None,
        }
    }

    /// Sets the interval of the task under `task_id`; `Some(true)` where
    /// there is such a task, `None` otherwise.
    pub fn set_interval(&mut self, task_id: usize, interval: Option<u64>) -> (r: Option<bool>)
        requires
            old(self).wf(),
        ensures
            final(self).wf(),
            final(self).funcs() == old(self).funcs(),
            final(self).payloads() == old(self).payloads(),
            final(self).names() == old(self).names(),
            final(self).order() == old(self).order(),
            match r {
                Some(_) => old(self).tasks().contains_key(task_id) && final(self).tasks()
                    == old(self).tasks().insert(
                    task_id,
                    TaskState { interval, ..old(self).tasks()[task_id] },
                ),
                None => !old(self).tasks().contains_key(task_id) && *final(self) == *old(self),
            },
            r is Some ==> r == Some(true),
    {
        if !self.tasks_list_.contains(task_id) {
            return None;
        }
        let ghost tasks0 = self.tasks();
        let taken = self.tasks_list_.take(task_id);
        match taken {
            Some(mut task) => {
                proof {
                    assert(tasks0[task_id] == task@);
                }
                task.set_interval(interval);
                self.tasks_list_.put(task_id, task);
                proof {
                    assert(self.funcs() =~= old(self).funcs());
                    assert(self.payloads() =~= old(self).payloads());
                    assert(self.tasks_list_.elems().dom() =~= old(self).tasks_list_.elems().dom());
                    assert(self.tasks() =~= tasks0.insert(task_id, task@));
                }
                Some(true)
            },
            None => {
                proof {
                    assert(self.tasks_list_.elems() =~= old(self).tasks_list_.elems());
                }
                None
            },
        }
    }

    /// Turns the task under `task_id` on or off; an inactive task does
    /// nothing when a pass runs it.
    pub fn set_active(&mut self, task_id: usize, active: bool) -> (r: Option<bool>)
        requires
            old(self).wf(),
        ensures
            final(self).wf(),
            final(self).names() == old(self).names(),
            final(self).order() == old(self).order(),
            match r {
                Some(_) => old(self).tasks().contains_key(task_id) && final(self).tasks()
                    == old(self).tasks().insert(
                    task_id,
                    TaskState { active, ..old(self).tasks()[task_id] },
                ),
                None => !old(self).tasks().contains_key(task_id) && *final(self) == *old(self),
            },
            r is Some ==> r == Some(true),
    {
        if !self.tasks_list_.contains(task_id) {
            return None;
        }
        let ghost tasks0 = self.tasks();
        let taken = self.tasks_list_.take(task_id);
        match taken {
            Some(mut task) => {
                proof {
                    assert(tasks0[task_id] == task@);
                }
                task.set_active(active);
                self.tasks_list_.put(task_id, task);
                proof {
                    assert(self.tasks_list_.elems().dom() =~= old(self).tasks_list_.elems().dom());
                    assert(self.tasks() =~= tasks0.insert(task_id, task@));
                }
                Some(true)
            },
            None => {
                proof {
                    assert(self.tasks_list_.elems() =~= old(self).tasks_list_.elems());
                }
                None
            },
        }
    }

    /// Sets the priority of the task under `task_id` and moves it to its
    /// place in the pass order.
    pub fn set_priority(&mut self, task_id: usize, priority: isize) -> (r: Option<bool>)
        requires
            old(self).wf(),
        ensures
            final(self).wf(),
            final(self).names() == old(self).names(),
            match r {
                Some(_) => old(self).tasks().contains_key(task_id) && final(self).tasks()
                    == old(self).tasks().insert(
                    task_id,
                    TaskState { priority, ..old(self).tasks()[task_id] },
                ),
                None => !old(self).tasks().contains_key(task_id) && *final(self) == *old(self),
            },
            r is Some ==> r == Some(true),
    {
        if !self.tasks_list_.contains(task_id) {
            return None;
        }
        let ghost tasks0 = self.tasks();
        let ghost order0 = self.order();
        let taken = self.tasks_list_.take(task_id);
        match taken {
            Some(mut task) => {
                proof {
                    assert(tasks0[task_id] == task@);
                }
                let old_key = task.get_order_struct().key();
                task.set_priority(priority);
                let new_key = task.get_order_struct().key();
                self.tasks_list_.put(task_id, task);
                keys_remove(&mut self.sorted_tasks_, old_key);
                let ghost order1 = self.order();
                keys_push(&mut self.sorted_tasks_, new_key);
                proof {
                    assert(self.tasks_list_.elems().dom() =~= old(self).tasks_list_.elems().dom());
                    assert(self.tasks() =~= tasks0.insert(task_id, task@));
                    assert forall|k: (i128, usize)| #[trigger]
                        self.order().contains(k) <==> (self.tasks().contains_key(k.1) && k
                            == order_key(k.1, self.tasks()[k.1].priority)) by {
                        assert(self.order().to_set().contains(k) == self.order().contains(k));
                        assert(order1.to_set().contains(k) == order1.contains(k));
                        assert(order0.to_set().contains(k) == order0.contains(k));
                    }
                }
                Some(true)
            },
            None => {
                proof {
                    assert(self.tasks_list_.elems() =~= old(self).tasks_list_.elems());
                }
                None
            },
        }
    }

    /// The timestamp update of one task: `Some(true)` where there is a task
    /// under `task_id`, `None` otherwise.
    pub fn update_task(&mut self, task_id: usize, updated_time: u64) -> (r: Option<bool>)
        requires
            old(self).wf(),
        ensures
            final(self).wf(),
            final(self).names() == old(self).names(),
            final(self).order() == old(self).order(),
            match r {
                Some(_) => old(self).tasks().contains_key(task_id) && final(self).tasks()
                    == old(self).tasks().insert(
                    task_id,
                    task_after_update(old(self).tasks()[task_id], updated_time),
                ),
                None => !old(self).tasks().contains_key(task_id) && *final(self) == *old(self),
            },
            r is Some ==> r == Some(true),
    {
        if !self.tasks_list_.contains(task_id) {
            return None;
        }
        let ghost tasks0 = self.tasks();
        let taken = self.tasks_list_.take(task_id);
        match taken {
            Some(mut task) => {
                proof {
                    assert(tasks0[task_id] == task@);
                }
                task.update(updated_time);
                self.tasks_list_.put(task_id, task);
                proof {
                    assert(self.tasks_list_.elems().dom() =~= old(self).tasks_list_.elems().dom());
                    assert(self.tasks() =~= tasks0.insert(task_id, task@));
                }
                Some(true)
            },
            None => {
                proof {
                    assert(self.tasks_list_.elems() =~= old(self).tasks_list_.elems());
                }
                None
            },
        }
    }

    /// Removes the task under `task_id`, with its name and its place in the
    /// order; an absent id changes nothing.
    pub fn remove(&mut self, task_id: usize)
        requires
            old(self).wf(),
        ensures
            final(self).wf(),
            final(self).tasks() == old(self).tasks().remove(task_id),
            final(self).names() == old(self).names().remove(task_id),
    {
        let ghost tasks0 = self.tasks();
        let ghost order0 = self.order();
        let key = match self.tasks_list_.get(task_id) {
            Some(task) => Some(task.get_order_struct().key()),
            None => None,
        };
        self.tasks_list_.remove(task_id);
        if let Some(k) = key {
            keys_remove(&mut self.sorted_tasks_, k);
        }
        proof {
            assert(self.tasks() =~= tasks0.remove(task_id));
            assert(self.tasks().dom() =~= self.names().dom());
            assert forall|k: (i128, usize)| #[trigger]
                self.order().contains(k) <==> (self.tasks().contains_key(k.1) && k == order_key(
                    k.1,
                    self.tasks()[k.1].priority,
                )) by {
                assert(self.order().to_set().contains(k) == self.order().contains(k));
                assert(order0.to_set().contains(k) == order0.contains(k));
            }
        }
    }

    pub fn clear(&mut self)
        ensures
            final(self).wf(),
            final(self).tasks() == Map::<usize, TaskState>::empty(),
            final(self).names() == Map::<usize, Seq<char>>::empty(),
    {
        self.tasks_list_.clear();
        keys_clear(&mut self.sorted_tasks_);
        assert(self.tasks() =~= Map::<usize, TaskState>::empty());
    }

    /// The ids in the order in which a pass runs them: priority highest
    /// first, then id ascending.
    pub fn sorted(&self) -> (r: Vec<usize>)
        ensures
            r@ == self.order_ids(),
    {
        let keys = keys_list(&self.sorted_tasks_);
        let mut r: Vec<usize> = Vec::new();
        let mut i: usize = 0;
        while i < keys.len()
            invariant
                keys@ == self.order(),
                0 <= i <= keys.len(),
                r@ == self.order_ids().take(i as int),
            decreases keys.len() - i,
        {
            r.push(keys[i].1);
            i += 1;
            assert(r@ =~= self.order_ids().take(i as int));
        }
        assert(r@ =~= self.order_ids());
        r
    }

    /// Copies the run state of each task that `pass` holds too; `pass` is a
    /// snapshot of this container that a pass has run.
    pub fn take_run_states(&mut self, pass: &TaskContainer<F, D>)
        requires
            old(self).wf(),
        ensures
            final(self).wf(),
            final(self).names() == old(self).names(),
            final(self).order() == old(self).order(),
            final(self).tasks().dom() == old(self).tasks().dom(),
            forall|id: usize| #[trigger]
                old(self).tasks().contains_key(id) ==> final(self).tasks()[id] == (
                if pass.tasks().contains_key(id) {
                    TaskState {
                        invocations: pass.tasks()[id].invocations,
                        executed: pass.tasks()[id].executed,
                        ..old(self).tasks()[id]
                    }
                } else {
                    old(self).tasks()[id]
                }),
            final(self).happened() == pass.happened(),
    {
        self.happened_tasks_counter_ = pass.happened_tasks_counter_.clone();
        let ids = self.tasks_list_.ids();
        let ghost tasks0 = self.tasks();
        let mut i: usize = 0;
        while i < ids.len()
            invariant
                self.wf(),
                ids@.no_duplicates(),
                forall|k: usize| tasks0.contains_key(k) <==> ids@.contains(k),
                0 <= i <= ids.len(),
                self.names() == old(self).names(),
                self.order() == old(self).order(),
                self.happened() == pass.happened(),
                self.tasks().dom() == tasks0.dom(),
                forall|id: usize| #[trigger]
                    tasks0.contains_key(id) ==> self.tasks()[id] == (if among_first(ids@, i as int, id)
                        && pass.tasks().contains_key(id) {
                        TaskState {
                            invocations: pass.tasks()[id].invocations,
                            executed: pass.tasks()[id].executed,
                            ..tasks0[id]
                        }
                    } else {
                        tasks0[id]
                    }),
            decreases ids.len() - i,
        {
            let id = ids[i];
            let ghost before = self.tasks();
            proof {
                lemma_among_first_fresh(ids@, i as int);
            }
            match pass.tasks_list_.get(id) {
                Some(source) => {
                    let taken = self.tasks_list_.take(id);
                    if let Some(mut task) = taken {
                        task.take_run_state(source);
                        self.tasks_list_.put(id, task);
                        proof {
                            assert(self.tasks() =~= before.insert(id, task@));
                        }
                    }
                },
                None => {},
            }
            proof {
                lemma_among_first_step(ids@, i as int);
            }
            i += 1;
        }
        proof {
            lemma_among_first_all(ids@);
        }
    }
}

impl<F: Clone, D: Clone> TaskContainer<F, D> {
    /// A frozen copy for a pass: the same tasks, names and order. The copy
    /// shares callbacks and payloads as far as their `Clone` shares them.
    pub fn consume(&self) -> (r: Self)
        requires
            self.wf(),
        ensures
            r.wf(),
            r.tasks() == self.tasks(),
            r.names() == self.names(),
            r.order() == self.order(),
            r.happened() == self.happened(),
    {
        TaskContainer {
            tasks_list_: self.tasks_list_.duplicate(),
            sorted_tasks_: keys_clone(&self.sorted_tasks_),
            happened_tasks_counter_: self.happened_tasks_counter_.clone(),
        }
    }
}

impl<F: TaskFuncTrait<D>, D> TaskContainer<F, D> {
    /// One pass at `updated_time` for the manager `thread_id`: runs every
    /// task once, in the pass order, and returns the ids to remove, in that
    /// order. A task that runs once is removed once it has fired, whatever it
    /// returned; a task is also removed when its callback asks for it.
    /// Nothing is removed here. The happened counter marks, with 1, each task
    /// that fired in this pass.
    pub fn run_tasks(&mut self, thread_id: usize, updated_time: u64) -> (r: Vec<usize>)
        requires
            old(self).wf(),
        ensures
            final(self).wf(),
            final(self).names() == old(self).names(),
            final(self).order() == old(self).order(),
            final(self).tasks().dom() == old(self).tasks().dom(),
            forall|id: usize| #[trigger]
                old(self).tasks().contains_key(id) ==> final(self).tasks()[id] == task_after_pass(
                    old(self).tasks()[id],
                    updated_time,
                ),
            exists|outs: Seq<TaskOutput>|
                outputs_fit(old(self).tasks(), old(self).order_ids(), outs, updated_time) && r@
                    == removal_list(old(self).tasks(), old(self).order_ids(), outs, updated_time),
            forall|id: usize| #[trigger]
                final(self).happened().contains_key(id) <==> (old(self).tasks().contains_key(id)
                    && task_fires(old(self).tasks()[id], updated_time)),
            forall|id: usize| #[trigger]
                final(self).happened().contains_key(id) ==> final(self).happened()[id] == 1,
    {
        proof {
            self.lemma_order_ids();
        }
        let keys = keys_list(&self.sorted_tasks_);
        let ghost tasks0 = self.tasks();
        let ghost ids = self.order_ids();
        let ghost mut outs: Seq<TaskOutput> = Seq::empty();
        let mut to_be_removed: Vec<usize> = Vec::new();
        self.happened_tasks_counter_ = HashMap::new();
        let mut i: usize = 0;
        while i < keys.len()
            invariant
                self.wf(),
                keys@ == old(self).order(),
                ids == old(self).order_ids(),
                ids.len() == keys@.len(),
                ids.no_duplicates(),
                forall|id: usize| tasks0.contains_key(id) <==> #[trigger] ids.contains(id),
                tasks0 == old(self).tasks(),
                0 <= i <= keys.len(),
                self.names() == old(self).names(),
                self.order() == old(self).order(),
                self.tasks().dom() == tasks0.dom(),
                forall|id: usize| #[trigger]
                    tasks0.contains_key(id) ==> self.tasks()[id] == (if among_first(ids, i as int, id) {
                        task_after_pass(tasks0[id], updated_time)
                    } else {
                        tasks0[id]
                    }),
                outputs_fit(tasks0, ids.take(i as int), outs, updated_time),
                to_be_removed@ == removal_list(tasks0, ids.take(i as int), outs, updated_time),
                forall|x: usize| #[trigger]
                    self.happened().contains_key(x) <==> (among_first(ids, i as int, x)
                        && task_fires(tasks0[x], updated_time)),
                forall|x: usize| #[trigger]
                    self.happened().contains_key(x) ==> self.happened()[x] == 1,
            decreases keys.len() - i,
        {
            let id = keys[i].1;
            proof {
                assert(ids[i as int] == id);
                assert(ids.contains(id));
                lemma_among_first_fresh(ids, i as int);
                lemma_among_first_step(ids, i as int);
            }
            let ghost before = self.tasks();
            let ghost happened_start = self.happened();
            proof {
                assert(!among_first(ids, i as int, id));
                assert(!happened_start.contains_key(id));
            }
            let taken = self.tasks_list_.take(id);
            let out = match taken {
                Some(mut task) => {
                    proof {
                        assert(before[id] == task@);
                    }
                    let fired = task.fires(updated_time);
                    let out = task.execute(updated_time, thread_id);
                    let once = task.get_type() == TaskEnum::Once;
                    self.tasks_list_.put(id, task);
                    proof {
                        assert(self.tasks() =~= before.insert(id, task@));
                    }
                    let ghost happened0 = self.happened();
                    proof {
                        assert(happened0 == happened_start);
                    }
                    if out == TaskOutput::Drop || (once && fired) {
                        to_be_removed.push(id);
                    }
                    if fired {
                        self.happened_tasks_counter_.insert(id, 1);
                    }
                    proof {
                        assert forall|x: usize| #[trigger]
                            self.happened().contains_key(x) <==> (among_first(ids, i + 1, x)
                                && task_fires(tasks0[x], updated_time)) by {
                            if x != id {
                                assert(self.happened().contains_key(x) == happened0.contains_key(x));
                            }
                        }
                        assert forall|x: usize| #[trigger]
                            self.happened().contains_key(x) implies self.happened()[x] == 1 by {
                            if x != id {
                                assert(happened0.contains_key(x));
                            }
                        }
                    }
                    out
                },
                None => {
                    proof {
                        assert(false);
                    }
                    TaskOutput::Keep
                },
            };
            proof {
                let outs0 = outs;
                outs = outs.push(out);
                assert(ids.take(i + 1).drop_last() =~= ids.take(i as int));
                assert(outs.drop_last() =~= outs0);
                assert(ids.take(i + 1).last() == id);
            }
            i += 1;
        }
        proof {
            assert(ids.take(i as int) =~= ids);
            lemma_among_first_all(ids);
        }
        to_be_removed
    }
}

/// The state of a task just registered under `id` at `now`.
pub open spec fn new_task_state(id: usize, kind: TaskEnum, now: u64) -> TaskState {
    TaskState {
        id,
        active: true,
        invocations: 0,
        executed: false,
        timestamp: now,
        interval: None,
        priority: 0,
        kind,
    }
}

/// A pass runs the tasks by priority, highest first, and tasks of equal
/// priority by ascending id.
pub proof fn lemma_pass_order<F, D>(c: &TaskContainer<F, D>, i: int, j: int)
    requires
        c.wf(),
        0 <= i < j < c.order_ids().len(),
    ensures
        c.tasks().contains_key(c.order_ids()[i]),
        c.tasks().contains_key(c.order_ids()[j]),
        c.tasks()[c.order_ids()[i]].priority > c.tasks()[c.order_ids()[j]].priority || (
        c.tasks()[c.order_ids()[i]].priority == c.tasks()[c.order_ids()[j]].priority
            && c.order_ids()[i] < c.order_ids()[j]),
{
    let o = c.order();
    assert(o.contains(o[i]));
    assert(o.contains(o[j]));
    assert(key_lt(o[i], o[j]));
}

/// A task registered in the live container after a snapshot was taken is
/// not in the pass over that snapshot, and is in the pass over the live
/// container, or over any later snapshot of it.
pub proof fn lemma_snapshot_isolation<F, D>(
    snapshot: &TaskContainer<F, D>,
    live_before: &TaskContainer<F, D>,
    live_after: &TaskContainer<F, D>,
    id: usize,
    state: TaskState,
)
    requires
        snapshot.wf(),
        live_after.wf(),
        snapshot.tasks() == live_before.tasks(),
        !live_before.tasks().contains_key(id),
        live_after.tasks() == live_before.tasks().insert(id, state),
    ensures
        !snapshot.order_ids().contains(id),
        live_after.order_ids().contains(id),
{
    snapshot.lemma_order_ids();
    live_after.lemma_order_ids();
}

} // verus!
