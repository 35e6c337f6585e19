//! Lookups among the mouse events, and the mouse lock.

use crate::engine::{broadcast_event_by_id, id_or_zero, set_mouse_locked, Engine};
use crate::event::EventEnum;
use crate::event_container::pending_after_broadcast;
use crate::event_handler::stored_name;
use crate::named::id_of;
use vstd::prelude::*;

verus! {

/// The id of the mouse event `event_name`, or 0.
pub fn get_event<TF, TD, EF, ED>(engine: &Engine<TF, TD, EF, ED>, event_name: &str) -> (r: usize)
    requires
        engine.wf(),
    ensures
        r == id_or_zero(id_of(engine.handler().names(), stored_name(EventEnum::Mouse, event_name@))),
{
    match engine.event_handler().get_mouse_event_id(event_name) {
        Some(id) => id,
        None => 0,
    }
}

/// The ids of the mouse events, each once.
pub fn get_events<TF, TD, EF, ED>(engine: &Engine<TF, TD, EF, ED>) -> (r: Vec<usize>)
    requires
        engine.wf(),
    ensures
        r@.no_duplicates(),
        forall|id: usize|
            #[trigger] r@.contains(id) <==> (engine.handler().events().contains_key(id)
                && engine.handler().events()[id].kind == EventEnum::Mouse),
{
    engine.event_handler().get_mouse_events()
}

/// The name of the mouse event that announces a lock (`true`) or a release.
pub open spec fn lock_event_name(value: bool) -> Seq<char> {
    if value {
        "lock"@
    } else {
        "unlock"@
    }
}

/// Locks (`true`) or frees the mouse and broadcasts the mouse event `lock`
/// or `unlock`; false where that event is not registered.
pub fn set_lock<TF, TD, EF, ED>(engine: &mut Engine<TF, TD, EF, ED>, value: bool) -> (r: bool)
    requires
        old(engine).wf(),
    ensures
        final(engine).wf(),
        final(engine).update_info().mouse_locked == value,
        final(engine).managers() == old(engine).managers(),
        final(engine).handler().events() == old(engine).handler().events(),
        final(engine).handler().names() == old(engine).handler().names(),
        r == (id_of(
            old(engine).handler().names(),
            stored_name(EventEnum::Mouse, lock_event_name(value)),
        ) is Some),
        match id_of(
            old(engine).handler().names(),
            stored_name(EventEnum::Mouse, lock_event_name(value)),
        ) {
            Some(id) => final(engine).handler().container().pending() == pending_after_broadcast(
                old(engine).handler().container().pending(),
                old(engine).handler().events(),
                id,
            ),
            None => final(engine).handler() == old(engine).handler(),
        },
{
    set_mouse_locked(engine, value);
    let name = if value {
        "lock"
    } else {
        "unlock"
    };
    match engine.event_handler().get_mouse_event_id(name) {
        Some(id) => {
            proof {
                assert(engine.handler().names().contains_key(id));
            }
            broadcast_event_by_id(engine, id)
        },
        None => false,
    }
}

/// Locks the mouse and broadcasts the mouse event `lock`.
pub fn lock<TF, TD, EF, ED>(engine: &mut Engine<TF, TD, EF, ED>) -> (r: bool)
    requires
        old(engine).wf(),
    ensures
        final(engine).wf(),
        final(engine).update_info().mouse_locked,
        r == (id_of(
            old(engine).handler().names(),
            stored_name(EventEnum::Mouse, lock_event_name(true)),
        ) is Some),
{
    set_lock(engine, true)
}

/// Frees the mouse and broadcasts the mouse event `unlock`.
pub fn unlock<TF, TD, EF, ED>(engine: &mut Engine<TF, TD, EF, ED>) -> (r: bool)
    requires
        old(engine).wf(),
    ensures
        final(engine).wf(),
        !final(engine).update_info().mouse_locked,
        r == (id_of(
            old(engine).handler().names(),
            stored_name(EventEnum::Mouse, lock_event_name(false)),
        ) is Some),
{
    set_lock(engine, false)
}

/// Flips the mouse lock and broadcasts the matching mouse event.
pub fn toggle_lock<TF, TD, EF, ED>(engine: &mut Engine<TF, TD, EF, ED>) -> (r: bool)
    requires
        old(engine).wf(),
    ensures
        final(engine).wf(),
        final(engine).update_info().mouse_locked == !old(engine).update_info().mouse_locked,
        r == (id_of(
            old(engine).handler().names(),
            stored_name(EventEnum::Mouse, lock_event_name(!old(engine).update_info().mouse_locked)),
        ) is Some),
{
    let value = !engine.winsys_update_info().mouse_locked;
    set_lock(engine, value)
}

} // verus!
