//! An event: a named notification whose callback runs when it is broadcast
//! or repeated, and may ask for further events to run at once.

use crate::timing::{due, elapsed_ns, is_due};
use vstd::prelude::*;

verus! {

/// The category of an event; its stored name carries the matching prefix.
#[derive(Clone, Copy, Debug, PartialEq, Eq, Structural)]
pub enum EventEnum {
    User,
    Keyboard,
    Mouse,
    Internal,
}

/// What a callback learns of the run that invoked it.
#[derive(Clone, Copy, Debug)]
pub struct EventInfo {
    id_: usize,
    invocations_: usize,
    delta_: u64,
    type_: EventEnum,
}

impl EventInfo {
    pub closed spec fn spec_id(&self) -> usize {
        self.id_
    }

    pub closed spec fn spec_invocations(&self) -> usize {
        self.invocations_
    }

    pub closed spec fn spec_deltatime(&self) -> u64 {
        self.delta_
    }

    pub closed spec fn spec_type(&self) -> EventEnum {
        self.type_
    }

    pub fn id(&self) -> (r: usize)
        ensures
            r == self.spec_id(),
    {
        self.id_
    }

    /// The event's invocation count, this run included.
    pub fn invocations(&self) -> (r: usize)
        ensures
            r == self.spec_invocations(),
    {
        self.invocations_
    }

    /// Nanoseconds since the event's reference timestamp.
    pub fn deltatime(&self) -> (r: u64)
        ensures
            r == self.spec_deltatime(),
    {
        self.delta_
    }

    pub fn get_type(&self) -> (r: EventEnum)
        ensures
            r == self.spec_type(),
    {
        self.type_
    }
}

/// An event's callback, invoked with the run's details and the event's
/// payload; it returns the ids of the events to run next, in the same pass.
pub trait EventFuncTrait<D> {
    fn call(&self, info: &EventInfo, data: &Option<D>) -> Vec<usize>;
}

/// An event's callback that does not read a payload.
pub trait EventFuncTraitWithoutArgs {
    fn call(&self, info: &EventInfo) -> Vec<usize>;
}

/// Lets a callback that takes no payload stand where one that does is asked for.
pub struct EventFuncIgnoringData<G>(pub G);

impl<D, G: EventFuncTraitWithoutArgs> EventFuncTrait<D> for EventFuncIgnoringData<G> {
    fn call(&self, info: &EventInfo, data: &Option<D>) -> Vec<usize> {
        self.0.call(info)
    }
}

/// The callback and the payload, replaced together.
pub struct EventMutexedProperties<F, D> {
    func_: Option<F>,
    data_: Option<D>,
}

/// What an event's runs change: its invocation count and whether it fired
/// since the last timestamp update.
pub struct EventArcedProperties<F, D> {
    invocations_: usize,
    executed: bool,
    mutexed_: EventMutexedProperties<F, D>,
}

/// The state of an event that its runs read and change.
pub struct EventState {
    pub id: usize,
    pub active: bool,
    pub invocations: usize,
    pub executed: bool,
    pub timestamp: u64,
    pub kind: EventEnum,
}

/// A run of the event at `now` with `interval` fires its callback.
pub open spec fn event_fires(s: EventState, now: u64, interval: Option<u64>) -> bool {
    s.active && due(now, s.timestamp, interval)
}

/// The state after the event fired `n` times: that many more invocations
/// (the count stops at its largest value) and, where `n` is not zero, marked
/// as executed.
pub open spec fn event_after_fires(s: EventState, n: nat) -> EventState {
    EventState {
        invocations: if s.invocations + n <= usize::MAX {
            (s.invocations + n) as usize
        } else {
            usize::MAX
        },
        executed: s.executed || n > 0,
        ..s
    }
}

/// The state after a timestamp update at `now`: an event that fired since
/// the last update takes `now` as its new reference time.
pub open spec fn event_after_update(s: EventState, now: u64) -> EventState {
    if s.executed {
        EventState { executed: false, timestamp: now, ..s }
    } else {
        s
    }
}

pub struct Event<F, D> {
    id_: usize,
    active: bool,
    data: EventArcedProperties<F, D>,
    timestamp_: u64,
    type_: EventEnum,
}

impl<F, D> View for Event<F, D> {
    type V = EventState;

    closed spec fn view(&self) -> EventState {
        EventState {
            id: self.id_,
            active: self.active,
            invocations: self.data.invocations_,
            executed: self.data.executed,
            timestamp: self.timestamp_,
            kind: self.type_,
        }
    }
}

impl<F, D> Event<F, D> {
    /// The callback; none stands for the default one.
    pub closed spec fn spec_func(&self) -> Option<F> {
        self.data.mutexed_.func_
    }

    /// The payload handed to the callback.
    pub closed spec fn spec_data(&self) -> Option<D> {
        self.data.mutexed_.data_
    }

    /// `self` and `other` hold the same callback and payload.
    pub open spec fn same_callback(&self, other: &Self) -> bool {
        self.spec_func() == other.spec_func() && self.spec_data() == other.spec_data()
    }

    /// An event under `id`, created at `now`: active and never run. Without
    /// a callback a run asks for no further event. Ids are not drawn here:
    /// the engine issues them from its counter, from 1 upwards, each above
    /// every id issued before (see `Engine::next_event_id`), so that 0 can
    /// stand for "no event".
    pub fn new(func: Option<F>, event_type: EventEnum, id: usize, now: u64) -> (r: Self)
        requires
            id >= 1,
        ensures
            r@ == (EventState {
                id,
                active: true,
                invocations: 0,
                executed: false,
                timestamp: now,
                kind: event_type,
            }),
            r.spec_func() == func,
            r.spec_data() == None::<D>,
    {
        Event {
            id_: id,
            active: true,
            data: EventArcedProperties {
                invocations_: 0,
                executed: false,
                mutexed_: EventMutexedProperties { func_: func, data_: None },
            },
            timestamp_: now,
            type_: event_type,
        }
    }

    /// Replaces the callback and the payload together.
    pub fn set_func(&mut self, func: F, data: D)
        ensures
            final(self)@ == old(self)@,
            final(self).spec_func() == Some(func),
            final(self).spec_data() == Some(data),
    {
        self.data.mutexed_ = EventMutexedProperties { func_: Some(func), data_: Some(data) };
    }

    /// Takes `func` as the callback (none: the default one, which asks for
    /// no further event) and drops the payload.
    pub fn replace_func(&mut self, func: Option<F>)
        ensures
            final(self)@ == old(self)@,
            final(self).spec_func() == func,
            final(self).spec_data() == None::<D>,
    {
        self.data.mutexed_ = EventMutexedProperties { func_: func, data_: None };
    }

    /// Replaces the payload and keeps the callback.
    pub fn set_func_data(&mut self, data: D)
        ensures
            final(self)@ == old(self)@,
            final(self).spec_func() == old(self).spec_func(),
            final(self).spec_data() == Some(data),
    {
        self.data.mutexed_.data_ = Some(data);
    }

    pub fn set_type(&mut self, event_type: EventEnum)
        ensures
            final(self).same_callback(old(self)),
            final(self)@ == (EventState { kind: event_type, ..old(self)@ }),
    {
        self.type_ = event_type;
    }

    pub fn set_active(&mut self, active: bool)
        ensures
            final(self).same_callback(old(self)),
            final(self)@ == (EventState { active, ..old(self)@ }),
    {
        self.active = active;
    }

    pub fn get_type(&self) -> (r: EventEnum)
        ensures
            r == self@.kind,
    {
        self.type_
    }

    /// A run at `now` with `interval` would fire the callback.
    pub fn fires(&self, now: u64, interval: Option<u64>) -> (r: bool)
        ensures
            r == event_fires(self@, now, interval),
    {
        self.active && is_due(now, self.timestamp_, interval)
    }

    pub fn is_active(&self) -> (r: bool)
        ensures
            r == self@.active,
    {
        self.active
    }

    pub fn id(&self) -> (r: usize)
        ensures
            r == self@.id,
    {
        self.id_
    }

    pub fn invocations(&self) -> (r: usize)
        ensures
            r == self@.invocations,
    {
        self.data.invocations_
    }

    pub fn executed(&self) -> (r: bool)
        ensures
            r == self@.executed,
    {
        self.data.executed
    }

    pub fn timestamp(&self) -> (r: u64)
        ensures
            r == self@.timestamp,
    {
        self.timestamp_
    }

    /// The timestamp update of a pass: an event that fired since the last
    /// one takes `updated_time` as its reference time; another keeps counting.
    pub fn update(&mut self, updated_time: u64)
        ensures
            final(self).same_callback(old(self)),
            final(self)@ == event_after_update(old(self)@, updated_time),
    {
        if self.data.executed {
            self.data.executed = false;
            self.timestamp_ = updated_time;
        }
    }

    /// Copies the run state (invocations, fired mark) of `other`.
    pub fn take_run_state(&mut self, other: &Event<F, D>)
        ensures
            final(self).same_callback(old(self)),
            final(self)@ == (EventState {
                invocations: other@.invocations,
                executed: other@.executed,
                ..old(self)@
            }),
    {
        self.data.invocations_ = other.data.invocations_;
        self.data.executed = other.data.executed;
    }
}

impl<F: EventFuncTrait<D>, D> Event<F, D> {
    /// Runs the event at `updated_time` with `interval`. An inactive event,
    /// or one whose interval has not passed, does nothing and asks for no
    /// further event; otherwise the event counts the run, marks itself as
    /// executed and returns the ids that its callback returns.
    pub fn execute(&mut self, updated_time: u64, interval: Option<u64>) -> (r: Vec<usize>)
        ensures
            event_fires(old(self)@, updated_time, interval) ==> final(self)@ == event_after_fires(
                old(self)@,
                1,
            ),
            !event_fires(old(self)@, updated_time, interval) ==> final(self)@ == old(self)@
                && r@.len() == 0,
    {
        if self.active && is_due(updated_time, self.timestamp_, interval) {
            let delta = elapsed_ns(updated_time, self.timestamp_);
            if self.data.invocations_ < usize::MAX {
                self.data.invocations_ = self.data.invocations_ + 1;
            }
            self.data.executed = true;
            let info = EventInfo {
                id_: self.id_,
                invocations_: self.data.invocations_,
                delta_: delta,
                type_: self.type_,
            };
            match &self.data.mutexed_.func_ {
                Some(f) => f.call(&info, &self.data.mutexed_.data_),
                None => Vec::new(),
            }
        } else {
            Vec::new()
        }
    }
}

impl<F: Clone, D: Clone> Clone for Event<F, D> {
    fn clone(&self) -> (r: Self)
        ensures
            r@ == self@,
    {
        Event {
            id_: self.id_,
            active: self.active,
            data: EventArcedProperties {
                invocations_: self.data.invocations_,
                executed: self.data.executed,
                mutexed_: EventMutexedProperties {
                    func_: self.data.mutexed_.func_.clone(),
                    data_: self.data.mutexed_.data_.clone(),
                },
            },
            timestamp_: self.timestamp_,
            type_: self.type_,
        }
    }
}

} // verus!
