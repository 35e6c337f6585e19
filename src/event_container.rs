//! The event container: events under names, the events broadcast since the
//! last pass, and the events that run on every pass.

use crate::event::{
    event_after_fires, event_after_update, event_fires, Event, EventEnum, EventFuncTrait, EventState,
};
use crate::named::{id_of, names_unique, BaseContainer};
use crate::seqs::{
    among_first, lemma_among_first_all, lemma_among_first_fresh, lemma_among_first_step,
    lemma_push_contains,
};
use std::collections::HashMap;
use vstd::prelude::*;

verus! {

broadcast use vstd::std_specs::hash::group_hash_axioms;

/// How deep a chain of events, each asked for by the one before, may run in
/// one pass; the events that a chain asks for past this depth do not run.
pub const MAX_CASCADE_DEPTH: usize = 32;

/// `b` is what `a` may become in a pass: only the run state grows, an event
/// that counted a run is marked as executed, and an inactive event stays.
pub open spec fn event_progressed(a: EventState, b: EventState) -> bool {
    &&& b.id == a.id
    &&& b.active == a.active
    &&& b.timestamp == a.timestamp
    &&& b.kind == a.kind
    &&& a.invocations <= b.invocations
    &&& (a.executed ==> b.executed)
    &&& (a.invocations < b.invocations ==> b.executed)
    &&& (!a.active ==> b == a)
}

/// `b` has fired at least once since `a`.
pub open spec fn event_fired(a: EventState, b: EventState) -> bool {
    &&& b.executed
    &&& (a.invocations < usize::MAX ==> a.invocations < b.invocations)
}

/// Every event of `a` is still in `b`, and has only progressed.
pub open spec fn events_progressed(a: Map<usize, EventState>, b: Map<usize, EventState>) -> bool {
    &&& b.dom() == a.dom()
    &&& forall|id: usize| #[trigger] a.contains_key(id) ==> event_progressed(a[id], b[id])
}

/// Every count of `a` is still in `b`, at least as high.
pub open spec fn counts_grew(a: Map<usize, u32>, b: Map<usize, u32>) -> bool {
    forall|x: usize| #[trigger] a.contains_key(x) ==> b.contains_key(x) && a[x] <= b[x]
}

/// `x` was counted at least once in `m`.
pub open spec fn counted(m: Map<usize, u32>, x: usize) -> bool {
    m.contains_key(x) && m[x] >= 1
}

pub proof fn lemma_counts_grew_trans(a: Map<usize, u32>, b: Map<usize, u32>, c: Map<usize, u32>)
    requires
        counts_grew(a, b),
        counts_grew(b, c),
    ensures
        counts_grew(a, c),
{
    assert forall|x: usize| #[trigger] a.contains_key(x) implies c.contains_key(x) && a[x] <= c[x] by {
        assert(b.contains_key(x));
    }
}

pub fn contains_id(v: &Vec<usize>, id: usize) -> (r: bool)
    ensures
        r == v@.contains(id),
{
    let mut i: usize = 0;
    while i < v.len()
        invariant
            0 <= i <= v.len(),
            forall|j: int| 0 <= j < i ==> v@[j] != id,
        decreases v.len() - i,
    {
        if v[i] == id {
            assert(v@[i as int] == id);
            return true;
        }
        i += 1;
    }
    false
}

pub struct EventContainer<F, D> {
    events_list_: BaseContainer<Event<F, D>>,
    pending_events_: Vec<usize>,
    repeated_events_: HashMap<usize, Option<u64>>,
    repeated_order_: Vec<usize>,
    happened_events_counter_: HashMap<usize, u32>,
}

impl<F, D> EventContainer<F, D> {
    /// The state of each event, by id.
    pub closed spec fn events(&self) -> Map<usize, EventState> {
        self.events_list_.elems().map_values(|e: Event<F, D>| e@)
    }

    /// The name of each event, by id.
    pub closed spec fn names(&self) -> Map<usize, Seq<char>> {
        self.events_list_.names()
    }

    /// The callback of each event, by id; none stands for the default one.
    pub closed spec fn funcs(&self) -> Map<usize, Option<F>> {
        self.events_list_.elems().map_values(|e: Event<F, D>| e.spec_func())
    }

    /// The payload of each event, by id.
    pub closed spec fn payloads(&self) -> Map<usize, Option<D>> {
        self.events_list_.elems().map_values(|e: Event<F, D>| e.spec_data())
    }

    /// The events broadcast since the last pass, each once, in the order of
    /// their first broadcast.
    pub closed spec fn pending(&self) -> Seq<usize> {
        self.pending_events_@
    }

    /// The events that run on every pass, with the interval of each.
    pub closed spec fn repeated(&self) -> Map<usize, Option<u64>> {
        self.repeated_events_@
    }

    /// The repeated events in the order in which a pass runs them.
    pub closed spec fn repeat_order(&self) -> Seq<usize> {
        self.repeated_order_@
    }

    pub closed spec fn list_wf(&self) -> bool {
        self.events_list_.wf()
    }

    /// How many times each event fired in the last pass; an event that is
    /// not here did not fire.
    pub closed spec fn happened(&self) -> Map<usize, u32> {
        self.happened_events_counter_@
    }

    /// How many times the event under `event_id` fired in the last pass.
    pub fn happened_count(&self, event_id: usize) -> (r: u32)
        ensures
            r == (if self.happened().contains_key(event_id) {
                self.happened()[event_id]
            } else {
                0
            }),
    {
        match self.happened_events_counter_.get(&event_id) {
            Some(n) => *n,
            None => 0,
        }
    }

    pub open spec fn wf(&self) -> bool {
        &&& self.list_wf()
        &&& self.events().dom() == self.names().dom()
        &&& names_unique(self.names())
        &&& forall|id: usize| #[trigger]
            self.events().contains_key(id) ==> self.events()[id].id == id && id >= 1
        &&& self.pending().no_duplicates()
        &&& self.repeat_order().no_duplicates()
        &&& forall|id: usize|
            self.repeated().contains_key(id) <==> #[trigger] self.repeat_order().contains(id)
    }

    proof fn lemma_wf(&self)
        requires
            self.list_wf(),
        ensures
            self.events().dom() == self.names().dom(),
            names_unique(self.names()),
    {
        assert(self.events().dom() =~= self.names().dom());
    }

    pub fn new() -> (r: Self)
        ensures
            r.wf(),
            r.events() == Map::<usize, EventState>::empty(),
            r.names() == Map::<usize, Seq<char>>::empty(),
            r.pending().len() == 0,
            r.repeated() == Map::<usize, Option<u64>>::empty(),
            r.repeat_order().len() == 0,
    {
        let r = EventContainer {
            events_list_: BaseContainer::new(),
            pending_events_: Vec::new(),
            repeated_events_: HashMap::new(),
            repeated_order_: Vec::new(),
            happened_events_counter_: HashMap::new(),
        };
        assert(r.events() =~= Map::<usize, EventState>::empty());
        r
    }

    /// The id of each event, once.
    pub fn ids(&self) -> (r: Vec<usize>)
        requires
            self.wf(),
        ensures
            r@.no_duplicates(),
            forall|k: usize| self.events().contains_key(k) <==> r@.contains(k),
    {
        self.events_list_.ids()
    }

    pub fn len(&self) -> (r: usize)
        ensures
            r == self.events().len(),
    {
        assert(self.events().dom() =~= self.events_list_.elems().dom());
        self.events_list_.len()
    }

    pub fn contains(&self, event_id: usize) -> (r: bool)
        ensures
            r == self.events().contains_key(event_id),
    {
        self.events_list_.contains(event_id)
    }

    pub fn contains_name(&self, event_name: &str) -> (r: bool)
        requires
            self.wf(),
        ensures
            r == (id_of(self.names(), event_name@) is Some),
    {
        self.events_list_.contains_name(event_name)
    }

    pub fn get_name(&self, event_id: usize) -> (r: Option<&str>)
        ensures
            match r {
                Some(s) => self.names().contains_key(event_id) && self.names()[event_id] == s@,
                None => !self.names().contains_key(event_id),
            },
    {
        self.events_list_.get_name(event_id)
    }

    pub fn get_id(&self, event_name: &str) -> (r: Option<usize>)
        requires
            self.wf(),
        ensures
            r == id_of(self.names(), event_name@),
    {
        self.events_list_.get_id(event_name)
    }

    /// The category of the event under `event_id`.
    pub fn get_type(&self, event_id: usize) -> (r: Option<EventEnum>)
        ensures
            r == (if self.events().contains_key(event_id) {
                Some(self.events()[event_id].kind)
            } else {
                None::<EventEnum>
            }),
    {
        match self.events_list_.get(event_id) {
            Some(e) => Some(e.get_type()),
            None => None,
        }
    }

    /// The state of the event under `event_id`.
    pub fn get_state(&self, event_id: usize) -> (r: Option<EventState>)
        ensures
            r == (if self.events().contains_key(event_id) {
                Some(self.events()[event_id])
            } else {
                None::<EventState>
            }),
    {
        match self.events_list_.get(event_id) {
            Some(e) => Some(
                EventState {
                    id: e.id(),
                    active: e.is_active(),
                    invocations: e.invocations(),
                    executed: e.executed(),
                    timestamp: e.timestamp(),
                    kind: e.get_type(),
                },
            ),
            None => None,
        }
    }
}

impl<F, D> EventContainer<F, D> {
    /// The pending and repeated queues of `self` and `other` agree.
    pub open spec fn same_queues(&self, other: &Self) -> bool {
        &&& self.pending() == other.pending()
        &&& self.repeated() == other.repeated()
        &&& self.repeat_order() == other.repeat_order()
    }

    fn add_new(&mut self, name: &str, func: Option<F>, event_type: EventEnum, event_id: usize, now: u64)
        requires
            old(self).wf(),
            event_id >= 1,
            !old(self).events().contains_key(event_id),
            id_of(old(self).names(), name@) is None,
        ensures
            final(self).wf(),
            final(self).same_queues(old(self)),
            final(self).events() == old(self).events().insert(
                event_id,
                new_event_state(event_id, event_type, now),
            ),
            final(self).names() == old(self).names().insert(event_id, name@),
            final(self).funcs() == old(self).funcs().insert(event_id, func),
            final(self).payloads() == old(self).payloads().insert(event_id, None),
    {
        proof {
            self.lemma_wf();
        }
        let ghost funcs0 = self.funcs();
        let ghost payloads0 = self.payloads();
        let ghost func0 = func;
        let ghost names0 = self.names();
        let ghost events0 = self.events();
        let new_event = Event::new(func, event_type, event_id, now);
        self.events_list_.insert(event_id, new_event, name);
        proof {
            assert forall|k: usize| names0.contains_key(k) implies names0[k] != name@ by {
                if names0[k] == name@ {
                    assert(exists|k: usize| names0.contains_key(k) && names0[k] == name@);
                }
            }
            assert(self.names() =~= names0.insert(event_id, name@));
            assert(self.events() =~= events0.insert(
                event_id,
                new_event_state(event_id, event_type, now),
            ));
            assert(self.funcs() =~= funcs0.insert(event_id, func0));
            assert(self.payloads() =~= payloads0.insert(event_id, None));
        }
    }

    /// Registers a new event under `event_id` and `name`, unless an event
    /// has that name already: then nothing changes and the result is 0.
    pub fn insert_no_overwrite(
        &mut self,
        name: &str,
        func: Option<F>,
        event_type: EventEnum,
        event_id: usize,
        now: u64,
    ) -> (r: usize)
        requires
            old(self).wf(),
            event_id >= 1,
            !old(self).events().contains_key(event_id),
        ensures
            final(self).wf(),
            id_of(old(self).names(), name@) is Some ==> r == 0 && *final(self) == *old(self),
            id_of(old(self).names(), name@) is None ==> r == event_id && final(self).events()
                == old(self).events().insert(event_id, new_event_state(event_id, event_type, now))
                && final(self).names() == old(self).names().insert(event_id, name@)
                && final(self).same_queues(old(self)),
    {
        if !self.events_list_.contains_name(name) {
            self.add_new(name, func, event_type, event_id, now);
            event_id
        } else {
            0
        }
    }

    /// Registers `func` under `name`. Where an event has that name already,
    /// it keeps its id, category and state and takes `func` with no
    /// payload; otherwise a new event under `event_id` is added.
    pub fn insert(
        &mut self,
        name: &str,
        func: Option<F>,
        event_type: EventEnum,
        event_id: usize,
        now: u64,
    ) -> (r: usize)
        requires
            old(self).wf(),
            event_id >= 1,
            !old(self).events().contains_key(event_id),
        ensures
            final(self).wf(),
            final(self).same_queues(old(self)),
            final(self).names() == (if id_of(old(self).names(), name@) is Some {
                old(self).names()
            } else {
                old(self).names().insert(event_id, name@)
            }),
            match id_of(old(self).names(), name@) {
                Some(existing) => r == existing && final(self).events() == old(self).events(),
                None => r == event_id && final(self).events() == old(self).events().insert(
                    event_id,
                    new_event_state(event_id, event_type, now),
                ),
            },
            r >= 1,
            final(self).funcs() == old(self).funcs().insert(r, func),
            final(self).payloads() == old(self).payloads().insert(r, None),
    {
        let ghost func0 = func;
        match self.events_list_.get_id(name) {
            Some(existing) => {
                proof {
                    self.lemma_wf();
                }
                let ghost events0 = self.events();
                let ghost funcs0 = self.funcs();
                let ghost payloads0 = self.payloads();
                let taken = self.events_list_.take(existing);
                if let Some(mut event) = taken {
                    event.replace_func(func);
                    self.events_list_.put(existing, event);
                }
                proof {
                    assert(self.events_list_.elems().dom() =~= old(self).events_list_.elems().dom());
                    assert(self.events() =~= events0);
                    assert(self.funcs() =~= funcs0.insert(existing, func0));
                    assert(self.payloads() =~= payloads0.insert(existing, None));
                }
                existing
            },
            None => {
                self.add_new(name, func, event_type, event_id, now);
                event_id
            },
        }
    }

    pub fn set_func(&mut self, event_id: usize, func: F, data: D) -> (r: Option<bool>)
        requires
            old(self).wf(),
        ensures
            final(self).wf(),
            final(self).same_queues(old(self)),
            final(self).events() == old(self).events(),
            final(self).names() == old(self).names(),
            r == (if old(self).events().contains_key(event_id) {
                Some(true)
            } else {
                None::<bool>
            }),
            r is Some ==> final(self).funcs() == old(self).funcs().insert(event_id, Some(func))
                && final(self).payloads() == old(self).payloads().insert(event_id, Some(data)),
            r is None ==> *final(self) == *old(self),
    {
        if !self.events_list_.contains(event_id) {
            return None;
        }
        let ghost events0 = self.events();
        let ghost funcs0 = self.funcs();
        let ghost payloads0 = self.payloads();
        let ghost args = (Some(func), Some(data));
        let taken = self.events_list_.take(event_id);
        if let Some(mut event) = taken {
            event.set_func(func, data);
            self.events_list_.put(event_id, event);
        }
        proof {
            assert(self.events_list_.elems().dom() =~= old(self).events_list_.elems().dom());
            assert(self.events() =~= events0);
            assert(self.funcs() =~= funcs0.insert(event_id, args.0));
            assert(self.payloads() =~= payloads0.insert(event_id, args.1));
        }
        Some(true)
    }

    /// Takes `func` as the callback of the event under `event_id` and drops
    /// its payload.
    pub fn reset_func(&mut self, event_id: usize, func: F) -> (r: Option<bool>)
        requires
            old(self).wf(),
        ensures
            final(self).wf(),
            final(self).same_queues(old(self)),
            final(self).events() == old(self).events(),
            final(self).names() == old(self).names(),
            r == (if old(self).events().contains_key(event_id) {
                Some(true)
            } else {
                None::<bool>
            }),
            r is Some ==> final(self).funcs() == old(self).funcs().insert(event_id, Some(func))
                && final(self).payloads() == old(self).payloads().insert(event_id, None),
            r is None ==> *final(self) == *old(self),
    {
        if !self.events_list_.contains(event_id) {
            return None;
        }
        let ghost events0 = self.events();
        let ghost funcs0 = self.funcs();
        let ghost payloads0 = self.payloads();
        let ghost args = (Some(func), None::<D>);
        let taken = self.events_list_.take(event_id);
        if let Some(mut event) = taken {
            event.replace_func(Some(func));
            self.events_list_.put(event_id, event);
        }
        proof {
            assert(self.events_list_.elems().dom() =~= old(self).events_list_.elems().dom());
            assert(self.events() =~= events0);
            assert(self.funcs() =~= funcs0.insert(event_id, args.0));
            assert(self.payloads() =~= payloads0.insert(event_id, args.1));
        }
        Some(true)
    }

    pub fn set_func_data(&mut self, event_id: usize, data: D) -> (r: Option<bool>)
        requires
            old(self).wf(),
        ensures
            final(self).wf(),
            final(self).same_queues(old(self)),
            final(self).events() == old(self).events(),
            final(self).names() == old(self).names(),
            r == (if old(self).events().contains_key(event_id) {
                Some(true)
            } else {
                None::<bool>
            }),
            final(self).funcs() == old(self).funcs(),
            r is Some ==> final(self).payloads() == old(self).payloads().insert(event_id, Some(data)),
            r is None ==> *final(self) == *old(self),
    {
        if !self.events_list_.contains(event_id) {
            return None;
        }
        let ghost events0 = self.events();
        let ghost funcs0 = self.funcs();
        let ghost payloads0 = self.payloads();
        let ghost args = (None::<F>, Some(data));
        let taken = self.events_list_.take(event_id);
        if let Some(mut event) = taken {
            event.set_func_data(data);
            self.events_list_.put(event_id, event);
        }
        proof {
            assert(self.events_list_.elems().dom() =~= old(self).events_list_.elems().dom());
            assert(self.events() =~= events0);
            assert(self.funcs() =~= funcs0);
            assert(self.payloads() =~= payloads0.insert(event_id, args.1));
        }
        Some(true)
    }

    /// Turns the event under `event_id` on or off; an inactive event does
    /// nothing when it runs.
    pub fn set_active(&mut self, event_id: usize, active: bool) -> (r: Option<bool>)
        requires
            old(self).wf(),
        ensures
            final(self).wf(),
            final(self).same_queues(old(self)),
            final(self).names() == old(self).names(),
            match r {
                Some(_) => old(self).events().contains_key(event_id) && final(self).events()
                    == old(self).events().insert(
                    event_id,
                    EventState { active, ..old(self).events()[event_id] },
                ),
                None => !old(self).events().contains_key(event_id) && *final(self) == *old(self),
            },
            r is Some ==> r == Some(true),
    {
        if !self.events_list_.contains(event_id) {
            return None;
        }
        let ghost events0 = self.events();
        let taken = self.events_list_.take(event_id);
        if let Some(mut event) = taken {
            proof {
                assert(events0[event_id] == event@);
            }
            event.set_active(active);
            self.events_list_.put(event_id, event);
            proof {
                assert(self.events_list_.elems().dom() =~= old(self).events_list_.elems().dom());
                assert(self.events() =~= events0.insert(event_id, event@));
            }
        }
        Some(true)
    }

    /// The timestamp update of one event: `Some(true)` where there is an
    /// event under `event_id`, `None` otherwise.
    pub fn update_event(&mut self, event_id: usize, updated_time: u64) -> (r: Option<bool>)
        requires
            old(self).wf(),
        ensures
            final(self).wf(),
            final(self).same_queues(old(self)),
            final(self).names() == old(self).names(),
            match r {
                Some(_) => old(self).events().contains_key(event_id) && final(self).events()
                    == old(self).events().insert(
                    event_id,
                    event_after_update(old(self).events()[event_id], updated_time),
                ),
                None => !old(self).events().contains_key(event_id) && *final(self) == *old(self),
            },
            r is Some ==> r == Some(true),
    {
        if !self.events_list_.contains(event_id) {
            return None;
        }
        let ghost events0 = self.events();
        let taken = self.events_list_.take(event_id);
        if let Some(mut event) = taken {
            proof {
                assert(events0[event_id] == event@);
            }
            event.update(updated_time);
            self.events_list_.put(event_id, event);
            proof {
                assert(self.events_list_.elems().dom() =~= old(self).events_list_.elems().dom());
                assert(self.events() =~= events0.insert(event_id, event@));
            }
        }
        Some(true)
    }

    /// Removes the event under `event_id` with its name; an absent id
    /// changes nothing. The queues keep the id; a pass skips ids that no
    /// event holds.
    pub fn remove(&mut self, event_id: usize)
        requires
            old(self).wf(),
        ensures
            final(self).wf(),
            final(self).same_queues(old(self)),
            final(self).events() == old(self).events().remove(event_id),
            final(self).names() == old(self).names().remove(event_id),
    {
        let ghost events0 = self.events();
        self.events_list_.remove(event_id);
        proof {
            assert(self.events() =~= events0.remove(event_id));
            assert(self.events().dom() =~= self.names().dom());
        }
    }

    /// Queues the event under `event_id` for the next pass; an event that is
    /// queued already stays queued once. `None` where no event has the id.
    pub fn broadcast(&mut self, event_id: usize) -> (r: Option<bool>)
        requires
            old(self).wf(),
        ensures
            final(self).wf(),
            final(self).events() == old(self).events(),
            final(self).names() == old(self).names(),
            final(self).repeated() == old(self).repeated(),
            final(self).repeat_order() == old(self).repeat_order(),
            final(self).pending() == pending_after_broadcast(
                old(self).pending(),
                old(self).events(),
                event_id,
            ),
            r == (if old(self).events().contains_key(event_id) {
                Some(true)
            } else {
                None::<bool>
            }),
    {
        if self.events_list_.contains(event_id) {
            if !contains_id(&self.pending_events_, event_id) {
                self.pending_events_.push(event_id);
            }
            Some(true)
        } else {
            None
        }
    }

    /// Makes the event under `event_id` run on every pass with `interval`,
    /// or changes the interval of an event that does already. `None` where
    /// no event has the id.
    pub fn repeat(&mut self, event_id: usize, interval: Option<u64>) -> (r: Option<bool>)
        requires
            old(self).wf(),
        ensures
            final(self).wf(),
            final(self).events() == old(self).events(),
            final(self).names() == old(self).names(),
            final(self).pending() == old(self).pending(),
            old(self).events().contains_key(event_id) ==> r == Some(true) && final(self).repeated()
                == old(self).repeated().insert(event_id, interval) && final(self).repeat_order()
                == (if old(self).repeated().contains_key(event_id) {
                old(self).repeat_order()
            } else {
                old(self).repeat_order().push(event_id)
            }),
            !old(self).events().contains_key(event_id) ==> r is None && *final(self)
                == *old(self),
    {
        if self.events_list_.contains(event_id) {
            if !self.repeated_events_.contains_key(&event_id) {
                proof {
                    lemma_push_contains(self.repeat_order(), event_id);
                }
                self.repeated_order_.push(event_id);
            }
            self.repeated_events_.insert(event_id, interval);
            Some(true)
        } else {
            None
        }
    }

    /// Stops the event under `event_id` from running on every pass. `None`
    /// where no event has the id.
    pub fn derepeat(&mut self, event_id: usize) -> (r: Option<bool>)
        requires
            old(self).wf(),
        ensures
            final(self).wf(),
            final(self).events() == old(self).events(),
            final(self).names() == old(self).names(),
            final(self).pending() == old(self).pending(),
            old(self).events().contains_key(event_id) ==> r == Some(true) && final(self).repeated()
                == old(self).repeated().remove(event_id) && (forall|k: usize| #[trigger]
                final(self).repeat_order().contains(k) <==> (old(self).repeat_order().contains(k)
                && k != event_id)),
            !old(self).events().contains_key(event_id) ==> r is None && *final(self)
                == *old(self),
    {
        if self.events_list_.contains(event_id) {
            self.repeated_events_.remove(&event_id);
            let mut kept: Vec<usize> = Vec::new();
            let mut i: usize = 0;
            let ghost order0 = self.repeat_order();
            while i < self.repeated_order_.len()
                invariant
                    self.repeat_order() == order0,
                    order0.no_duplicates(),
                    0 <= i <= order0.len(),
                    kept@.no_duplicates(),
                    forall|k: usize|
                        #[trigger] kept@.contains(k) <==> (among_first(order0, i as int, k) && k
                            != event_id),
                decreases order0.len() - i,
            {
                let k = self.repeated_order_[i];
                proof {
                    lemma_among_first_step(order0, i as int);
                    lemma_among_first_fresh(order0, i as int);
                }
                if k != event_id {
                    let ghost kept0 = kept@;
                    kept.push(k);
                    proof {
                        lemma_push_contains(kept0, k);
                        assert forall|x: usize| #[trigger] kept@.contains(x) <==> (among_first(order0, i + 1, x) && x != event_id) by {
                            assert(kept0.contains(x) <==> (among_first(order0, i as int, x) && x != event_id));
                        }
                    }
                }
                i += 1;
            }
            proof {
                lemma_among_first_all(order0);
            }
            self.repeated_order_ = kept;
            Some(true)
        } else {
            None
        }
    }

    /// The repeated events with their intervals, in pass order.
    pub fn get_repeated(&self) -> (r: Vec<(usize, Option<u64>)>)
        requires
            self.wf(),
        ensures
            r@.len() == self.repeat_order().len(),
            forall|i: int|
                0 <= i < r@.len() ==> #[trigger] r@[i] == (
                self.repeat_order()[i],
                self.repeated()[self.repeat_order()[i]],
            ),
    {
        let mut r: Vec<(usize, Option<u64>)> = Vec::new();
        let mut i: usize = 0;
        while i < self.repeated_order_.len()
            invariant
                self.wf(),
                0 <= i <= self.repeat_order().len(),
                r@.len() == i,
                forall|j: int|
                    0 <= j < i ==> #[trigger] r@[j] == (
                        self.repeat_order()[j],
                        self.repeated()[self.repeat_order()[j]],
                    ),
            decreases self.repeat_order().len() - i,
        {
            let id = self.repeated_order_[i];
            assert(self.repeat_order().contains(id));
            let interval = match self.repeated_events_.get(&id) {
                Some(v) => *v,
                None => None,
            };
            r.push((id, interval));
            i += 1;
        }
        r
    }

    /// Takes the pending events out, in order, and leaves none queued.
    pub fn pop_pending(&mut self) -> (r: Vec<usize>)
        requires
            old(self).wf(),
        ensures
            final(self).wf(),
            r@ == old(self).pending(),
            final(self).pending().len() == 0,
            final(self).events() == old(self).events(),
            final(self).names() == old(self).names(),
            final(self).repeated() == old(self).repeated(),
            final(self).repeat_order() == old(self).repeat_order(),
            final(self).happened() == old(self).happened(),
    {
        let mut out: Vec<usize> = Vec::new();
        std::mem::swap(&mut out, &mut self.pending_events_);
        out
    }
}

impl<F: Clone, D: Clone> EventContainer<F, D> {
    /// A frozen copy for a pass: the same events, names and queues. The
    /// pending events move to the copy, so that a broadcast made during the
    /// pass waits for the next one.
    pub fn consume(&mut self) -> (r: Self)
        requires
            old(self).wf(),
        ensures
            r.wf(),
            r.events() == old(self).events(),
            r.names() == old(self).names(),
            r.same_queues(old(self)),
            final(self).wf(),
            final(self).events() == old(self).events(),
            final(self).names() == old(self).names(),
            final(self).pending().len() == 0,
            final(self).repeated() == old(self).repeated(),
            final(self).repeat_order() == old(self).repeat_order(),
            r.happened() == old(self).happened(),
    {
        let pending = self.pop_pending();
        let mut order: Vec<usize> = Vec::new();
        let mut i: usize = 0;
        while i < self.repeated_order_.len()
            invariant
                0 <= i <= self.repeat_order().len(),
                order@ == self.repeat_order().take(i as int),
            decreases self.repeat_order().len() - i,
        {
            order.push(self.repeated_order_[i]);
            i += 1;
            assert(order@ =~= self.repeat_order().take(i as int));
        }
        assert(order@ =~= self.repeat_order());
        EventContainer {
            events_list_: self.events_list_.duplicate(),
            pending_events_: pending,
            repeated_events_: self.repeated_events_.clone(),
            repeated_order_: order,
            happened_events_counter_: self.happened_events_counter_.clone(),
        }
    }
}

impl<F, D> EventContainer<F, D> {
    /// Copies the run state of each event that `pass` holds too; `pass` is a
    /// snapshot of this container that a pass has run.
    pub fn take_run_states(&mut self, pass: &EventContainer<F, D>)
        requires
            old(self).wf(),
        ensures
            final(self).wf(),
            final(self).same_queues(old(self)),
            final(self).names() == old(self).names(),
            final(self).events().dom() == old(self).events().dom(),
            forall|id: usize| #[trigger]
                old(self).events().contains_key(id) ==> final(self).events()[id] == (
                if pass.events().contains_key(id) {
                    EventState {
                        invocations: pass.events()[id].invocations,
                        executed: pass.events()[id].executed,
                        ..old(self).events()[id]
                    }
                } else {
                    old(self).events()[id]
                }),
            final(self).happened() == pass.happened(),
    {
        self.happened_events_counter_ = pass.happened_events_counter_.clone();
        let ids = self.events_list_.ids();
        let ghost events0 = self.events();
        let mut i: usize = 0;
        while i < ids.len()
            invariant
                self.wf(),
                self.same_queues(old(self)),
                ids@.no_duplicates(),
                forall|k: usize| events0.contains_key(k) <==> ids@.contains(k),
                0 <= i <= ids.len(),
                self.names() == old(self).names(),
                self.happened() == pass.happened(),
                self.events().dom() == events0.dom(),
                forall|id: usize| #[trigger]
                    events0.contains_key(id) ==> self.events()[id] == (if among_first(
                        ids@,
                        i as int,
                        id,
                    ) && pass.events().contains_key(id) {
                        EventState {
                            invocations: pass.events()[id].invocations,
                            executed: pass.events()[id].executed,
                            ..events0[id]
                        }
                    } else {
                        events0[id]
                    }),
            decreases ids.len() - i,
        {
            let id = ids[i];
            let ghost before = self.events();
            proof {
                lemma_among_first_fresh(ids@, i as int);
                lemma_among_first_step(ids@, i as int);
            }
            match pass.events_list_.get(id) {
                Some(source) => {
                    let taken = self.events_list_.take(id);
                    if let Some(mut event) = taken {
                        event.take_run_state(source);
                        self.events_list_.put(id, event);
                        proof {
                            assert(self.events() =~= before.insert(id, event@));
                        }
                    }
                },
                None => {},
            }
            i += 1;
        }
        proof {
            lemma_among_first_all(ids@);
        }
    }
}

impl<F: EventFuncTrait<D>, D> EventContainer<F, D> {
    /// A run of the event under `event_id` at `now` with `interval` would
    /// fire its callback.
    pub fn fires_now(&self, event_id: usize, now: u64, interval: Option<u64>) -> (r: bool)
        ensures
            r == (self.events().contains_key(event_id) && event_fires(
                self.events()[event_id],
                now,
                interval,
            )),
    {
        match self.events_list_.get(event_id) {
            Some(e) => e.fires(now, interval),
            None => false,
        }
    }

    /// Runs the event under `event_id` once with `interval`; the ids that
    /// its callback asks for are returned, not run.
    pub fn execute_one(&mut self, event_id: usize, updated_time: u64, interval: Option<u64>) -> (r:
        Vec<usize>)
        requires
            old(self).wf(),
        ensures
            final(self).wf(),
            final(self).same_queues(old(self)),
            final(self).names() == old(self).names(),
            final(self).happened() == old(self).happened(),
            old(self).events().contains_key(event_id) ==> final(self).events()
                == old(self).events().insert(
                event_id,
                if event_fires(old(self).events()[event_id], updated_time, interval) {
                    event_after_fires(old(self).events()[event_id], 1)
                } else {
                    old(self).events()[event_id]
                },
            ),
            !old(self).events().contains_key(event_id) ==> final(self).events()
                == old(self).events() && r@.len() == 0,
    {
        if !self.events_list_.contains(event_id) {
            return Vec::new();
        }
        let ghost events0 = self.events();
        let taken = self.events_list_.take(event_id);
        match taken {
            Some(mut event) => {
                proof {
                    assert(events0[event_id] == event@);
                }
                let cascade = event.execute(updated_time, interval);
                self.events_list_.put(event_id, event);
                proof {
                    assert(self.events_list_.elems().dom() =~= old(self).events_list_.elems().dom());
                    assert(self.events() =~= events0.insert(event_id, event@));
                }
                cascade
            },
            None => Vec::new(),
        }
    }

    /// Runs the events of `event_list`: a single event with `interval`, each
    /// of several without one. The events that a run asks for run right
    /// after it, without an interval, as long as `depth` allows.
    pub fn execute_events(
        &mut self,
        event_list: &Vec<usize>,
        updated_time: u64,
        interval: Option<u64>,
        depth: usize,
    )
        requires
            old(self).wf(),
        ensures
            final(self).wf(),
            final(self).same_queues(old(self)),
            final(self).names() == old(self).names(),
            events_progressed(old(self).events(), final(self).events()),
            counts_grew(old(self).happened(), final(self).happened()),
            event_list@.len() == 1 && old(self).events().contains_key(event_list@[0])
                && event_fires(old(self).events()[event_list@[0]], updated_time, interval)
                ==> counted(final(self).happened(), event_list@[0]),
            event_list@.len() == 0 ==> final(self).events() == old(self).events()
                && final(self).happened() == old(self).happened(),
            event_list@.len() == 1 && old(self).events().contains_key(event_list@[0])
                && event_fires(old(self).events()[event_list@[0]], updated_time, interval)
                ==> event_fired(
                old(self).events()[event_list@[0]],
                final(self).events()[event_list@[0]],
            ),
            event_list@.len() > 1 ==> forall|i: int|
                0 <= i < event_list@.len() && old(self).events().contains_key(event_list@[i])
                    && event_fires(old(self).events()[event_list@[i]], updated_time, None)
                    ==> event_fired(
                    old(self).events()[#[trigger] event_list@[i]],
                    final(self).events()[event_list@[i]],
                ),
        decreases depth, event_list@.len(),
    {
        let ghost events0 = self.events();
        if event_list.len() > 1 {
            let mut i: usize = 0;
            while i < event_list.len()
                invariant
                    self.wf(),
                    self.same_queues(old(self)),
                    self.names() == old(self).names(),
                    events0 == old(self).events(),
                    events_progressed(events0, self.events()),
                    counts_grew(old(self).happened(), self.happened()),
                    event_list@.len() > 1,
                    0 <= i <= event_list@.len(),
                    forall|j: int|
                        0 <= j < i && events0.contains_key(event_list@[j]) && event_fires(
                            events0[event_list@[j]],
                            updated_time,
                            None,
                        ) ==> event_fired(
                            events0[#[trigger] event_list@[j]],
                            self.events()[event_list@[j]],
                        ),
                decreases event_list@.len() - i,
            {
                let one = vec![event_list[i]];
                let ghost mid = self.events();
                let ghost mid_counts = self.happened();
                self.execute_events(&one, updated_time, None, depth);
                proof {
                    lemma_counts_grew_trans(old(self).happened(), mid_counts, self.happened());
                    assert(one@[0] == event_list@[i as int]);
                    assert forall|id: usize| #[trigger] events0.contains_key(id) implies event_progressed(
                        events0[id],
                        self.events()[id],
                    ) by {
                        assert(mid.contains_key(id));
                        assert(event_progressed(mid[id], self.events()[id]));
                    }
                    assert forall|j: int|
                        0 <= j <= i && events0.contains_key(event_list@[j]) && event_fires(
                            events0[event_list@[j]],
                            updated_time,
                            None,
                        ) implies event_fired(
                            events0[#[trigger] event_list@[j]],
                            self.events()[event_list@[j]],
                        ) by {
                        let id = event_list@[j];
                        assert(mid.contains_key(id));
                        assert(event_progressed(mid[id], self.events()[id]));
                        if j == i {
                            assert(event_progressed(events0[id], mid[id]));
                        }
                    }
                }
                i += 1;
            }
        } else if event_list.len() == 1 {
            let event_id = event_list[0];
            let fired = self.fires_now(event_id, updated_time, interval);
            let cascade = self.execute_one(event_id, updated_time, interval);
            let ghost mid = self.events();
            let ghost mid_counts = self.happened();
            proof {
                assert forall|id: usize| #[trigger] events0.contains_key(id) implies event_progressed(
                    events0[id],
                    mid[id],
                ) by {
                    if id == event_id {
                        assert(mid[id] == (if event_fires(events0[id], updated_time, interval) {
                            event_after_fires(events0[id], 1)
                        } else {
                            events0[id]
                        }));
                    }
                }
                assert(mid.dom() =~= events0.dom());
            }
            if depth > 0 {
                self.execute_events(&cascade, updated_time, None, depth - 1);
                proof {
                    lemma_counts_grew_trans(old(self).happened(), mid_counts, self.happened());
                    assert forall|id: usize| #[trigger] events0.contains_key(id) implies event_progressed(
                        events0[id],
                        self.events()[id],
                    ) by {
                        assert(mid.contains_key(id));
                        assert(event_progressed(mid[id], self.events()[id]));
                    }
                    if events0.contains_key(event_id) {
                        assert(mid.contains_key(event_id));
                        assert(event_progressed(mid[event_id], self.events()[event_id]));
                    }
                }
            }
            if fired {
                let ghost counts = self.happened();
                let n = match self.happened_events_counter_.get(&event_id) {
                    Some(n) => *n,
                    None => 0,
                };
                let next = if n < u32::MAX {
                    n + 1
                } else {
                    n
                };
                self.happened_events_counter_.insert(event_id, next);
                proof {
                    assert(counts_grew(counts, self.happened()));
                    lemma_counts_grew_trans(old(self).happened(), counts, self.happened());
                }
            }
        }
    }

    /// One pass at `updated_time`: every pending event runs, in order, with
    /// the events it asks for; then every repeated event runs with its own
    /// interval. The pending queue is left empty; broadcasts made by the
    /// callbacks reach the live container, for the next pass.
    pub fn handle_all_events(&mut self, updated_time: u64) -> (r: Option<bool>)
        requires
            old(self).wf(),
        ensures
            r == Some(true),
            final(self).wf(),
            final(self).names() == old(self).names(),
            final(self).pending().len() == 0,
            final(self).repeated() == old(self).repeated(),
            final(self).repeat_order() == old(self).repeat_order(),
            events_progressed(old(self).events(), final(self).events()),
            forall|id: usize|
                #![trigger old(self).pending().contains(id)]
                old(self).pending().contains(id) && old(self).events().contains_key(id)
                    && event_fires(old(self).events()[id], updated_time, None) ==> event_fired(
                    old(self).events()[id],
                    final(self).events()[id],
                ),
            forall|id: usize|
                #![trigger old(self).repeated().contains_key(id)]
                old(self).repeated().contains_key(id) && old(self).events().contains_key(id)
                    && event_fires(old(self).events()[id], updated_time, old(self).repeated()[id])
                    ==> event_fired(old(self).events()[id], final(self).events()[id]),
            forall|id: usize|
                #![trigger old(self).pending().contains(id)]
                old(self).pending().contains(id) && old(self).events().contains_key(id)
                    && event_fires(old(self).events()[id], updated_time, None) ==> counted(
                    final(self).happened(),
                    id,
                ),
            forall|id: usize|
                #![trigger old(self).repeated().contains_key(id)]
                old(self).repeated().contains_key(id) && old(self).events().contains_key(id)
                    && event_fires(old(self).events()[id], updated_time, old(self).repeated()[id])
                    ==> counted(final(self).happened(), id),
    {
        let ghost events0 = self.events();
        let pending = self.pop_pending();
        self.happened_events_counter_ = HashMap::new();
        let mut i: usize = 0;
        while i < pending.len()
            invariant
                self.wf(),
                self.names() == old(self).names(),
                self.pending().len() == 0,
                self.repeated() == old(self).repeated(),
                self.repeat_order() == old(self).repeat_order(),
                events0 == old(self).events(),
                pending@ == old(self).pending(),
                events_progressed(events0, self.events()),
                0 <= i <= pending@.len(),
                forall|j: int|
                    0 <= j < i && events0.contains_key(pending@[j]) && event_fires(
                        events0[pending@[j]],
                        updated_time,
                        None,
                    ) ==> counted(self.happened(), #[trigger] pending@[j]),
                forall|j: int|
                    0 <= j < i && events0.contains_key(pending@[j]) && event_fires(
                        events0[pending@[j]],
                        updated_time,
                        None,
                    ) ==> event_fired(events0[#[trigger] pending@[j]], self.events()[pending@[j]]),
            decreases pending@.len() - i,
        {
            let one = vec![pending[i]];
            let ghost mid = self.events();
            let ghost mid_counts = self.happened();
            self.execute_events(&one, updated_time, None, MAX_CASCADE_DEPTH);
            proof {
                assert forall|j: int|
                    0 <= j <= i && events0.contains_key(pending@[j]) && event_fires(
                        events0[pending@[j]],
                        updated_time,
                        None,
                    ) implies counted(self.happened(), #[trigger] pending@[j]) by {
                    if j < i {
                        assert(mid_counts.contains_key(pending@[j]));
                    } else {
                        assert(events0.contains_key(one@[0]));
                        assert(event_progressed(events0[one@[0]], mid[one@[0]]));
                    }
                }
                assert(one@[0] == pending@[i as int]);
                assert forall|id: usize| #[trigger] events0.contains_key(id) implies event_progressed(
                    events0[id],
                    self.events()[id],
                ) by {
                    assert(mid.contains_key(id));
                    assert(event_progressed(mid[id], self.events()[id]));
                }
                assert forall|j: int|
                    0 <= j <= i && events0.contains_key(pending@[j]) && event_fires(
                        events0[pending@[j]],
                        updated_time,
                        None,
                    ) implies event_fired(events0[#[trigger] pending@[j]], self.events()[pending@[j]]) by {
                    let id = pending@[j];
                    assert(mid.contains_key(id));
                    assert(event_progressed(mid[id], self.events()[id]));
                    if j == i {
                        assert(event_progressed(events0[id], mid[id]));
                    }
                }
            }
            i += 1;
        }
        let ghost after_pending = self.events();
        let ghost counts_after_pending = self.happened();
        let repeated = self.get_repeated();
        let mut k: usize = 0;
        while k < repeated.len()
            invariant
                self.wf(),
                self.names() == old(self).names(),
                self.pending().len() == 0,
                self.repeated() == old(self).repeated(),
                self.repeat_order() == old(self).repeat_order(),
                events0 == old(self).events(),
                pending@ == old(self).pending(),
                events_progressed(events0, after_pending),
                events_progressed(after_pending, self.events()),
                repeated@.len() == self.repeat_order().len(),
                forall|j: int|
                    0 <= j < repeated@.len() ==> #[trigger] repeated@[j] == (
                        self.repeat_order()[j],
                        self.repeated()[self.repeat_order()[j]],
                    ),
                forall|j: int|
                    0 <= j < pending@.len() && events0.contains_key(pending@[j]) && event_fires(
                        events0[pending@[j]],
                        updated_time,
                        None,
                    ) ==> event_fired(events0[#[trigger] pending@[j]], after_pending[pending@[j]]),
                0 <= k <= repeated@.len(),
                counts_grew(counts_after_pending, self.happened()),
                forall|j: int|
                    0 <= j < pending@.len() && events0.contains_key(pending@[j]) && event_fires(
                        events0[pending@[j]],
                        updated_time,
                        None,
                    ) ==> counted(counts_after_pending, #[trigger] pending@[j]),
                forall|j: int|
                    0 <= j < k && events0.contains_key(self.repeat_order()[j]) && event_fires(
                        events0[self.repeat_order()[j]],
                        updated_time,
                        self.repeated()[self.repeat_order()[j]],
                    ) ==> counted(self.happened(), #[trigger] self.repeat_order()[j]),
                forall|j: int|
                    0 <= j < k && events0.contains_key(self.repeat_order()[j]) && event_fires(
                        events0[self.repeat_order()[j]],
                        updated_time,
                        self.repeated()[self.repeat_order()[j]],
                    ) ==> event_fired(
                        events0[#[trigger] self.repeat_order()[j]],
                        self.events()[self.repeat_order()[j]],
                    ),
            decreases repeated@.len() - k,
        {
            let (id, interval) = repeated[k];
            let one = vec![id];
            let ghost mid = self.events();
            let ghost mid_counts = self.happened();
            proof {
                assert(repeated@[k as int] == (
                    self.repeat_order()[k as int],
                    self.repeated()[self.repeat_order()[k as int]],
                ));
            }
            self.execute_events(&one, updated_time, interval, MAX_CASCADE_DEPTH);
            proof {
                assert(one@[0] == id);
                lemma_counts_grew_trans(counts_after_pending, mid_counts, self.happened());
                assert forall|j: int|
                    0 <= j <= k && events0.contains_key(self.repeat_order()[j]) && event_fires(
                        events0[self.repeat_order()[j]],
                        updated_time,
                        self.repeated()[self.repeat_order()[j]],
                    ) implies counted(self.happened(), #[trigger] self.repeat_order()[j]) by {
                    if j < k {
                        assert(mid_counts.contains_key(self.repeat_order()[j]));
                    } else {
                        let x = self.repeat_order()[j];
                        assert(event_progressed(events0[x], after_pending[x]));
                        assert(event_progressed(after_pending[x], mid[x]));
                    }
                }
                assert forall|x: usize| #[trigger] after_pending.contains_key(x) implies event_progressed(
                    after_pending[x],
                    self.events()[x],
                ) by {
                    assert(mid.contains_key(x));
                    assert(event_progressed(mid[x], self.events()[x]));
                }
                assert forall|j: int|
                    0 <= j <= k && events0.contains_key(self.repeat_order()[j]) && event_fires(
                        events0[self.repeat_order()[j]],
                        updated_time,
                        self.repeated()[self.repeat_order()[j]],
                    ) implies event_fired(
                        events0[#[trigger] self.repeat_order()[j]],
                        self.events()[self.repeat_order()[j]],
                    ) by {
                    let x = self.repeat_order()[j];
                    assert(mid.contains_key(x));
                    assert(event_progressed(mid[x], self.events()[x]));
                    assert(event_progressed(events0[x], after_pending[x]));
                    assert(event_progressed(after_pending[x], mid[x]));
                }
            }
            k += 1;
        }
        proof {
            assert forall|id: usize|
                #![trigger old(self).pending().contains(id)]
                old(self).pending().contains(id) && events0.contains_key(id) && event_fires(
                    events0[id],
                    updated_time,
                    None,
                ) implies counted(self.happened(), id) by {
                let j = choose|j: int| 0 <= j < pending@.len() && pending@[j] == id;
                assert(counted(counts_after_pending, pending@[j]));
            }
            assert forall|id: usize|
                #![trigger old(self).repeated().contains_key(id)]
                old(self).repeated().contains_key(id) && events0.contains_key(id) && event_fires(
                    events0[id],
                    updated_time,
                    old(self).repeated()[id],
                ) implies counted(self.happened(), id) by {
                assert(self.repeat_order().contains(id));
                let j = choose|j: int| 0 <= j < self.repeat_order().len() && self.repeat_order()[j] == id;
                assert(counted(self.happened(), self.repeat_order()[j]));
            }
            assert forall|id: usize| #[trigger] events0.contains_key(id) implies event_progressed(
                events0[id],
                self.events()[id],
            ) by {
                assert(event_progressed(events0[id], after_pending[id]));
                assert(event_progressed(after_pending[id], self.events()[id]));
            }
            assert forall|id: usize|
                #![trigger old(self).pending().contains(id)]
                old(self).pending().contains(id) && events0.contains_key(id) && event_fires(
                    events0[id],
                    updated_time,
                    None,
                ) implies event_fired(events0[id], self.events()[id]) by {
                let j = choose|j: int| 0 <= j < pending@.len() && pending@[j] == id;
                assert(event_fired(events0[pending@[j]], after_pending[pending@[j]]));
                assert(event_progressed(after_pending[id], self.events()[id]));
            }
            assert forall|id: usize|
                #![trigger old(self).repeated().contains_key(id)]
                old(self).repeated().contains_key(id) && events0.contains_key(id) && event_fires(
                    events0[id],
                    updated_time,
                    old(self).repeated()[id],
                ) implies event_fired(events0[id], self.events()[id]) by {
                assert(self.repeat_order().contains(id));
                let j = choose|j: int| 0 <= j < self.repeat_order().len() && self.repeat_order()[j] == id;
                assert(event_fired(events0[self.repeat_order()[j]], self.events()[self.repeat_order()[j]]));
            }
        }
        Some(true)
    }
}

/// The pending queue after a broadcast of `id`: an event that exists and is
/// not queued yet joins at the end.
pub open spec fn pending_after_broadcast(
    pending: Seq<usize>,
    events: Map<usize, EventState>,
    id: usize,
) -> Seq<usize> {
    if events.contains_key(id) && !pending.contains(id) {
        pending.push(id)
    } else {
        pending
    }
}

/// The state of an event just registered under `id` at `now`.
pub open spec fn new_event_state(id: usize, kind: EventEnum, now: u64) -> EventState {
    EventState { id, active: true, invocations: 0, executed: false, timestamp: now, kind }
}

/// Broadcasting an event twice before a pass queues it once, as a single
/// broadcast does.
pub proof fn lemma_broadcast_twice(pending: Seq<usize>, events: Map<usize, EventState>, id: usize)
    requires
        pending.no_duplicates(),
    ensures
        pending_after_broadcast(pending_after_broadcast(pending, events, id), events, id)
            == pending_after_broadcast(pending, events, id),
        pending_after_broadcast(pending, events, id).no_duplicates(),
        events.contains_key(id) ==> pending_after_broadcast(pending, events, id).contains(id),
{
    lemma_push_contains(pending, id);
}

} // verus!
