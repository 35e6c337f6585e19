//! Lookups among the keyboard events.

use crate::engine::{id_or_zero, Engine};
use crate::event::EventEnum;
use crate::event_handler::stored_name;
use crate::named::id_of;
use vstd::prelude::*;

verus! {

/// The id of the keyboard event `event_name`, or 0.
pub fn get_event<TF, TD, EF, ED>(engine: &Engine<TF, TD, EF, ED>, event_name: &str) -> (r: usize)
    requires
        engine.wf(),
    ensures
        r == id_or_zero(
            id_of(engine.handler().names(), stored_name(EventEnum::Keyboard, event_name@)),
        ),
{
    match engine.event_handler().get_keyboard_event_id(event_name) {
        Some(id) => id,
        None => 0,
    }
}

/// The ids of the keyboard events, each once.
pub fn get_events<TF, TD, EF, ED>(engine: &Engine<TF, TD, EF, ED>) -> (r: Vec<usize>)
    requires
        engine.wf(),
    ensures
        r@.no_duplicates(),
        forall|id: usize|
            #[trigger] r@.contains(id) <==> (engine.handler().events().contains_key(id)
                && engine.handler().events()[id].kind == EventEnum::Keyboard),
{
    engine.event_handler().get_keyboard_events()
}

} // verus!
