//! The event handler: the owner of the event container, with the
//! category-prefix naming of events and the mouse state.

use crate::event::{event_after_update, EventEnum, EventState};
use crate::event_container::{
    event_fired, events_progressed, new_event_state, pending_after_broadcast,
    EventContainer,
};
use crate::named::id_of;
use crate::seqs::{
    among_first, lemma_among_first_all, lemma_among_first_fresh, lemma_among_first_step,
};
use vstd::prelude::*;
use vstd::string::*;

verus! {

/// A mouse position or movement, in pixels.
#[derive(Default, PartialEq, Eq, Clone, Copy, Debug, Structural)]
pub struct MouseCoords {
    pub x: i32,
    pub y: i32,
}

/// The state of a button over frames.
#[derive(Default, Copy, Clone, PartialEq, Eq, Debug, Structural)]
pub enum ButtonStatus {
    JustPressed,
    Pressed,
    JustReleased,
    #[default]
    Released,
}

/// The prefix that the stored name of an event of each category carries.
pub open spec fn category_prefix(kind: EventEnum) -> Seq<char> {
    match kind {
        EventEnum::User => "user-"@,
        EventEnum::Keyboard => "keyboard-"@,
        EventEnum::Mouse => "mouse-"@,
        EventEnum::Internal => "internal-"@,
    }
}

/// The stored name of the event `name` of category `kind`.
pub open spec fn stored_name(kind: EventEnum, name: Seq<char>) -> Seq<char> {
    category_prefix(kind) + name
}

pub fn prefixed_name(kind: EventEnum, name: &str) -> (r: String)
    ensures
        r@ == stored_name(kind, name@),
{
    let mut s = match kind {
        EventEnum::User => String::from_str("user-"),
        EventEnum::Keyboard => String::from_str("keyboard-"),
        EventEnum::Mouse => String::from_str("mouse-"),
        EventEnum::Internal => String::from_str("internal-"),
    };
    s.append(name);
    s
}

pub struct EventHandler<F, D> {
    events_: EventContainer<F, D>,
    mouse_pos_: MouseCoords,
    mouse_delta_: MouseCoords,
    mouse_moved_: bool,
}

impl<F, D> EventHandler<F, D> {
    pub closed spec fn container(&self) -> EventContainer<F, D> {
        self.events_
    }

    /// The state of each event, by id.
    pub open spec fn events(&self) -> Map<usize, EventState> {
        self.container().events()
    }

    /// The stored name of each event, by id.
    pub open spec fn names(&self) -> Map<usize, Seq<char>> {
        self.container().names()
    }

    /// The callback of each event, by id.
    pub open spec fn funcs(&self) -> Map<usize, Option<F>> {
        self.container().funcs()
    }

    /// The payload of each event, by id.
    pub open spec fn payloads(&self) -> Map<usize, Option<D>> {
        self.container().payloads()
    }

    pub open spec fn wf(&self) -> bool {
        self.container().wf()
    }

    pub closed spec fn spec_mouse_pos(&self) -> MouseCoords {
        self.mouse_pos_
    }

    pub closed spec fn spec_mouse_delta(&self) -> MouseCoords {
        self.mouse_delta_
    }

    pub fn new() -> (r: Self)
        ensures
            r.wf(),
            r.events() == Map::<usize, EventState>::empty(),
            r.names() == Map::<usize, Seq<char>>::empty(),
            r.container().pending().len() == 0,
            r.container().repeated() == Map::<usize, Option<u64>>::empty(),
    {
        EventHandler {
            events_: EventContainer::new(),
            mouse_pos_: MouseCoords { x: 0, y: 0 },
            mouse_delta_: MouseCoords { x: 0, y: 0 },
            mouse_moved_: false,
        }
    }

    /// The live container, to read.
    pub fn events_ref(&self) -> (r: &EventContainer<F, D>)
        ensures
            *r == self.container(),
    {
        &self.events_
    }

    pub fn broadcast_event(&mut self, event_id: usize) -> (r: Option<bool>)
        requires
            old(self).wf(),
        ensures
            final(self).wf(),
            final(self).events() == old(self).events(),
            final(self).names() == old(self).names(),
            final(self).container().repeated() == old(self).container().repeated(),
            final(self).container().repeat_order() == old(self).container().repeat_order(),
            final(self).container().pending() == pending_after_broadcast(
                old(self).container().pending(),
                old(self).events(),
                event_id,
            ),
            r == (if old(self).events().contains_key(event_id) {
                Some(true)
            } else {
                None::<bool>
            }),
    {
        self.events_.broadcast(event_id)
    }

    /// Makes the event run on every pass, without an interval.
    pub fn repeat_event(&mut self, event_id: usize) -> (r: Option<bool>)
        requires
            old(self).wf(),
        ensures
            final(self).wf(),
            final(self).events() == old(self).events(),
            final(self).names() == old(self).names(),
            final(self).container().pending() == old(self).container().pending(),
            old(self).events().contains_key(event_id) ==> r == Some(true)
                && final(self).container().repeated() == old(self).container().repeated().insert(
                event_id,
                None,
            ),
            !old(self).events().contains_key(event_id) ==> r is None && *final(self) == *old(
                self,
            ),
    {
        self.events_.repeat(event_id, None)
    }

    /// Makes the event run on every pass once `interval` nanoseconds have
    /// passed since it last fired.
    pub fn repeat_timed_event(&mut self, event_id: usize, interval: u64) -> (r: Option<bool>)
        requires
            old(self).wf(),
        ensures
            final(self).wf(),
            final(self).events() == old(self).events(),
            final(self).names() == old(self).names(),
            final(self).container().pending() == old(self).container().pending(),
            old(self).events().contains_key(event_id) ==> r == Some(true)
                && final(self).container().repeated() == old(self).container().repeated().insert(
                event_id,
                Some(interval),
            ),
            !old(self).events().contains_key(event_id) ==> r is None && *final(self) == *old(
                self,
            ),
    {
        self.events_.repeat(event_id, Some(interval))
    }

    pub fn derepeat_event(&mut self, event_id: usize) -> (r: Option<bool>)
        requires
            old(self).wf(),
        ensures
            final(self).wf(),
            final(self).events() == old(self).events(),
            final(self).names() == old(self).names(),
            final(self).container().pending() == old(self).container().pending(),
            old(self).events().contains_key(event_id) ==> r == Some(true)
                && final(self).container().repeated() == old(
                self,
            ).container().repeated().remove(event_id),
            !old(self).events().contains_key(event_id) ==> r is None && *final(self) == *old(
                self,
            ),
    {
        self.events_.derepeat(event_id)
    }

    /// Registers the event `event_name` of category `kind` under its
    /// prefixed name, or resets the callback of the event that has that
    /// name already; the result is the event's id.
    pub fn create_event(&mut self, kind: EventEnum, event_name: &str, event_id: usize, now: u64) -> (r:
        usize)
        requires
            old(self).wf(),
            event_id >= 1,
            !old(self).events().contains_key(event_id),
        ensures
            final(self).wf(),
            final(self).container().same_queues(&old(self).container()),
            match id_of(old(self).names(), stored_name(kind, event_name@)) {
                Some(existing) => r == existing && final(self).events() == old(self).events()
                    && final(self).names() == old(self).names(),
                None => r == event_id && final(self).events() == old(self).events().insert(
                    event_id,
                    new_event_state(event_id, kind, now),
                ) && final(self).names() == old(self).names().insert(
                    event_id,
                    stored_name(kind, event_name@),
                ),
            },
    {
        let name = prefixed_name(kind, event_name);
        self.events_.insert(name.as_str(), None, kind, event_id, now)
    }

    pub fn create_user_event(&mut self, event_name: &str, event_id: usize, now: u64) -> (r: usize)
        requires
            old(self).wf(),
            event_id >= 1,
            !old(self).events().contains_key(event_id),
        ensures
            final(self).wf(),
            r == match id_of(old(self).names(), stored_name(EventEnum::User, event_name@)) {
                Some(existing) => existing,
                None => event_id,
            },
            final(self).names().contains_key(r) && final(self).names()[r] == stored_name(
                EventEnum::User,
                event_name@,
            ),
    {
        self.create_event(EventEnum::User, event_name, event_id, now)
    }

    pub fn create_keyboard_event(&mut self, event_name: &str, event_id: usize, now: u64) -> (r: usize)
        requires
            old(self).wf(),
            event_id >= 1,
            !old(self).events().contains_key(event_id),
        ensures
            final(self).wf(),
            r == match id_of(old(self).names(), stored_name(EventEnum::Keyboard, event_name@)) {
                Some(existing) => existing,
                None => event_id,
            },
            final(self).names().contains_key(r) && final(self).names()[r] == stored_name(
                EventEnum::Keyboard,
                event_name@,
            ),
    {
        self.create_event(EventEnum::Keyboard, event_name, event_id, now)
    }

    pub fn create_mouse_event(&mut self, event_name: &str, event_id: usize, now: u64) -> (r: usize)
        requires
            old(self).wf(),
            event_id >= 1,
            !old(self).events().contains_key(event_id),
        ensures
            final(self).wf(),
            r == match id_of(old(self).names(), stored_name(EventEnum::Mouse, event_name@)) {
                Some(existing) => existing,
                None => event_id,
            },
            final(self).names().contains_key(r) && final(self).names()[r] == stored_name(
                EventEnum::Mouse,
                event_name@,
            ),
    {
        self.create_event(EventEnum::Mouse, event_name, event_id, now)
    }

    pub fn set_event_func(&mut self, event_id: usize, func: F, data: D) -> (r: Option<bool>)
        requires
            old(self).wf(),
        ensures
            final(self).wf(),
            final(self).container().same_queues(&old(self).container()),
            final(self).events() == old(self).events(),
            final(self).names() == old(self).names(),
            r == (if old(self).events().contains_key(event_id) {
                Some(true)
            } else {
                None::<bool>
            }),
            r is Some ==> final(self).funcs() == old(self).funcs().insert(event_id, Some(func))
                && final(self).payloads() == old(self).payloads().insert(event_id, Some(data)),
            r is None ==> *final(self) == *old(self),
    {
        self.events_.set_func(event_id, func, data)
    }

    /// Takes `func` as the callback of the event, with no payload.
    pub fn set_event_func_only(&mut self, event_id: usize, func: F) -> (r: Option<bool>)
        requires
            old(self).wf(),
        ensures
            final(self).wf(),
            final(self).container().same_queues(&old(self).container()),
            final(self).events() == old(self).events(),
            final(self).names() == old(self).names(),
            r == (if old(self).events().contains_key(event_id) {
                Some(true)
            } else {
                None::<bool>
            }),
            r is Some ==> final(self).funcs() == old(self).funcs().insert(event_id, Some(func))
                && final(self).payloads() == old(self).payloads().insert(event_id, None),
            r is None ==> *final(self) == *old(self),
    {
        self.events_.reset_func(event_id, func)
    }

    pub fn set_event_data(&mut self, event_id: usize, data: D) -> (r: Option<bool>)
        requires
            old(self).wf(),
        ensures
            final(self).wf(),
            final(self).container().same_queues(&old(self).container()),
            final(self).events() == old(self).events(),
            final(self).names() == old(self).names(),
            r == (if old(self).events().contains_key(event_id) {
                Some(true)
            } else {
                None::<bool>
            }),
            final(self).funcs() == old(self).funcs(),
            r is Some ==> final(self).payloads() == old(self).payloads().insert(event_id, Some(data)),
            r is None ==> *final(self) == *old(self),
    {
        self.events_.set_func_data(event_id, data)
    }

    pub fn get_event_name(&self, event_id: usize) -> (r: Option<&str>)
        ensures
            match r {
                Some(s) => self.names().contains_key(event_id) && self.names()[event_id] == s@,
                None => !self.names().contains_key(event_id),
            },
    {
        self.events_.get_name(event_id)
    }

    /// The id of the event stored under `event_name`, prefix included.
    pub fn get_event_id(&self, event_name: &str) -> (r: Option<usize>)
        requires
            self.wf(),
        ensures
            r == id_of(self.names(), event_name@),
    {
        self.events_.get_id(event_name)
    }

    /// The id of the event `event_name` of category `kind`.
    pub fn get_category_event_id(&self, kind: EventEnum, event_name: &str) -> (r: Option<usize>)
        requires
            self.wf(),
        ensures
            r == id_of(self.names(), stored_name(kind, event_name@)),
    {
        let name = prefixed_name(kind, event_name);
        self.events_.get_id(name.as_str())
    }

    /// The ids of the events of category `kind`, each once.
    pub fn get_category_events(&self, kind: EventEnum) -> (r: Vec<usize>)
        requires
            self.wf(),
        ensures
            r@.no_duplicates(),
            forall|id: usize|
                #[trigger] r@.contains(id) <==> (self.events().contains_key(id)
                    && self.events()[id].kind == kind),
    {
        let ids = self.events_.ids();
        let mut output: Vec<usize> = Vec::new();
        let mut i: usize = 0;
        while i < ids.len()
            invariant
                self.wf(),
                ids@.no_duplicates(),
                forall|k: usize| self.events().contains_key(k) <==> ids@.contains(k),
                0 <= i <= ids.len(),
                output@.no_duplicates(),
                forall|id: usize|
                    #[trigger] output@.contains(id) <==> (among_first(ids@, i as int, id)
                        && self.events()[id].kind == kind),
            decreases ids.len() - i,
        {
            let id = ids[i];
            proof {
                lemma_among_first_fresh(ids@, i as int);
                lemma_among_first_step(ids@, i as int);
                assert(ids@.contains(ids@[i as int]));
            }
            if self.events_.get_type(id) == Some(kind) {
                let ghost out0 = output@;
                output.push(id);
                proof {
                    crate::seqs::lemma_push_contains(out0, id);
                }
            }
            i += 1;
        }
        proof {
            lemma_among_first_all(ids@);
        }
        output
    }

    pub fn get_user_event_id(&self, event_name: &str) -> (r: Option<usize>)
        requires
            self.wf(),
        ensures
            r == id_of(self.names(), stored_name(EventEnum::User, event_name@)),
    {
        self.get_category_event_id(EventEnum::User, event_name)
    }

    pub fn get_user_events(&self) -> (r: Vec<usize>)
        requires
            self.wf(),
        ensures
            r@.no_duplicates(),
            forall|id: usize|
                #[trigger] r@.contains(id) <==> (self.events().contains_key(id)
                    && self.events()[id].kind == EventEnum::User),
    {
        self.get_category_events(EventEnum::User)
    }

    pub fn get_keyboard_event_id(&self, event_name: &str) -> (r: Option<usize>)
        requires
            self.wf(),
        ensures
            r == id_of(self.names(), stored_name(EventEnum::Keyboard, event_name@)),
    {
        self.get_category_event_id(EventEnum::Keyboard, event_name)
    }

    pub fn get_keyboard_events(&self) -> (r: Vec<usize>)
        requires
            self.wf(),
        ensures
            r@.no_duplicates(),
            forall|id: usize|
                #[trigger] r@.contains(id) <==> (self.events().contains_key(id)
                    && self.events()[id].kind == EventEnum::Keyboard),
    {
        self.get_category_events(EventEnum::Keyboard)
    }

    pub fn get_mouse_event_id(&self, event_name: &str) -> (r: Option<usize>)
        requires
            self.wf(),
        ensures
            r == id_of(self.names(), stored_name(EventEnum::Mouse, event_name@)),
    {
        self.get_category_event_id(EventEnum::Mouse, event_name)
    }

    pub fn get_mouse_events(&self) -> (r: Vec<usize>)
        requires
            self.wf(),
        ensures
            r@.no_duplicates(),
            forall|id: usize|
                #[trigger] r@.contains(id) <==> (self.events().contains_key(id)
                    && self.events()[id].kind == EventEnum::Mouse),
    {
        self.get_category_events(EventEnum::Mouse)
    }

    pub fn get_internal_event_id(&self, event_name: &str) -> (r: Option<usize>)
        requires
            self.wf(),
        ensures
            r == id_of(self.names(), stored_name(EventEnum::Internal, event_name@)),
    {
        self.get_category_event_id(EventEnum::Internal, event_name)
    }

    pub fn get_internal_events(&self) -> (r: Vec<usize>)
        requires
            self.wf(),
        ensures
            r@.no_duplicates(),
            forall|id: usize|
                #[trigger] r@.contains(id) <==> (self.events().contains_key(id)
                    && self.events()[id].kind == EventEnum::Internal),
    {
        self.get_category_events(EventEnum::Internal)
    }

    pub fn update_mouse_status(&mut self, pos: MouseCoords, delta: MouseCoords)
        ensures
            final(self).spec_mouse_pos() == pos,
            final(self).spec_mouse_delta() == delta,
            final(self).container() == old(self).container(),
    {
        self.mouse_pos_ = pos;
        self.mouse_delta_ = delta;
    }

    pub fn mouse_pos(&self) -> (r: MouseCoords)
        ensures
            r == self.spec_mouse_pos(),
    {
        self.mouse_pos_
    }

    pub fn mouse_delta(&self) -> (r: MouseCoords)
        ensures
            r == self.spec_mouse_delta(),
    {
        self.mouse_delta_
    }

    /// The timestamp update of a pass, for every event.
    pub fn update_event_timestamps(&mut self, updated_time: u64)
        requires
            old(self).wf(),
        ensures
            final(self).wf(),
            final(self).container().same_queues(&old(self).container()),
            final(self).names() == old(self).names(),
            final(self).events().dom() == old(self).events().dom(),
            forall|id: usize| #[trigger]
                old(self).events().contains_key(id) ==> final(self).events()[id]
                    == event_after_update(old(self).events()[id], updated_time),
    {
        let ids = self.events_.ids();
        let ghost events0 = self.events();
        let mut i: usize = 0;
        while i < ids.len()
            invariant
                self.wf(),
                self.container().same_queues(&old(self).container()),
                ids@.no_duplicates(),
                forall|k: usize| events0.contains_key(k) <==> ids@.contains(k),
                0 <= i <= ids.len(),
                self.names() == old(self).names(),
                self.events().dom() == events0.dom(),
                forall|id: usize| #[trigger]
                    events0.contains_key(id) ==> self.events()[id] == (if among_first(
                        ids@,
                        i as int,
                        id,
                    ) {
                        event_after_update(events0[id], updated_time)
                    } else {
                        events0[id]
                    }),
            decreases ids.len() - i,
        {
            let id = ids[i];
            proof {
                lemma_among_first_fresh(ids@, i as int);
                lemma_among_first_step(ids@, i as int);
                assert(ids@.contains(ids@[i as int]));
            }
            let ghost before = self.events();
            self.events_.update_event(id, updated_time);
            proof {
                assert(self.events().dom() =~= before.dom());
            }
            i += 1;
        }
        proof {
            lemma_among_first_all(ids@);
        }
    }

    /// Copies the run state that a pass over a snapshot left in `pass`.
    pub fn take_run_states(&mut self, pass: &EventContainer<F, D>)
        requires
            old(self).wf(),
        ensures
            final(self).wf(),
            final(self).container().same_queues(&old(self).container()),
            final(self).names() == old(self).names(),
            final(self).events().dom() == old(self).events().dom(),
            forall|id: usize| #[trigger]
                old(self).events().contains_key(id) ==> final(self).events()[id] == (
                if pass.events().contains_key(id) {
                    EventState {
                        invocations: pass.events()[id].invocations,
                        executed: pass.events()[id].executed,
                        ..old(self).events()[id]
                    }
                } else {
                    old(self).events()[id]
                }),
    {
        self.events_.take_run_states(pass)
    }
}

impl<F: Clone, D: Clone> EventHandler<F, D> {
    /// A frozen copy of the container for a pass; the pending events move
    /// to the copy.
    pub fn consume_events(&mut self) -> (r: EventContainer<F, D>)
        requires
            old(self).wf(),
        ensures
            r.wf(),
            r.events() == old(self).events(),
            r.names() == old(self).names(),
            r.same_queues(&old(self).container()),
            final(self).wf(),
            final(self).events() == old(self).events(),
            final(self).names() == old(self).names(),
            final(self).container().pending().len() == 0,
            final(self).container().repeated() == old(self).container().repeated(),
            final(self).container().repeat_order() == old(self).container().repeat_order(),
    {
        self.events_.consume()
    }
}

impl<F: crate::event::EventFuncTrait<D>, D> EventHandler<F, D> {
    /// A pass over the live container itself, for a single-threaded loop.
    pub fn handle_events(&mut self, updated_time: u64)
        requires
            old(self).wf(),
        ensures
            final(self).wf(),
            final(self).names() == old(self).names(),
            final(self).container().pending().len() == 0,
            final(self).container().repeated() == old(self).container().repeated(),
            events_progressed(old(self).events(), final(self).events()),
            forall|id: usize|
                #![trigger old(self).container().pending().contains(id)]
                old(self).container().pending().contains(id) && old(self).events().contains_key(id)
                    && crate::event::event_fires(old(self).events()[id], updated_time, None)
                    ==> event_fired(old(self).events()[id], final(self).events()[id]),
            forall|id: usize|
                #![trigger old(self).container().repeated().contains_key(id)]
                old(self).container().repeated().contains_key(id) && old(self).events().contains_key(
                    id,
                ) && crate::event::event_fires(
                    old(self).events()[id],
                    updated_time,
                    old(self).container().repeated()[id],
                ) ==> event_fired(old(self).events()[id], final(self).events()[id]),
    {
        self.events_.handle_all_events(updated_time);
    }
}

} // verus!
