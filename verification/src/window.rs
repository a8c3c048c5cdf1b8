//! The life of the window that shows the finished picture: it stays open,
//! unchanged, until the user asks for it to be closed.

use vstd::prelude::*;

verus! {

/// What the window reports while the picture is on show.
#[derive(Clone, Copy, Debug, PartialEq, Eq, Structural)]
pub enum WindowEvent {
    /// The user asked for the window to be closed.
    Quit,
    /// The escape key went down.
    EscapeDown,
    /// Anything else: another key, the mouse, the window being moved.
    Other,
}

/// Whether the picture is still on show.
#[derive(Clone, Copy, Debug, PartialEq, Eq, Structural)]
pub enum Phase {
    /// The window is open and waits for events.
    Showing,
    /// The window has been asked to close.
    Closed,
}

/// The phase that follows `phase` once `event` has arrived: a request to
/// quit and the escape key close the window, nothing else does, and a closed
/// window stays closed.
pub open spec fn after(phase: Phase, event: WindowEvent) -> Phase {
    match (phase, event) {
        (Phase::Showing, WindowEvent::Other) => Phase::Showing,
        _ => Phase::Closed,
    }
}

/// The phase that the window is in after all of `events`, in their order.
pub open spec fn after_all(phase: Phase, events: Seq<WindowEvent>) -> Phase
    decreases events.len(),
{
    if events.len() == 0 {
        phase
    } else {
        after(after_all(phase, events.drop_last()), events.last())
    }
}

/// Takes one event in.
pub fn step(phase: Phase, event: WindowEvent) -> (next: Phase)
    ensures
        next == after(phase, event),
{
    match phase {
        Phase::Closed => Phase::Closed,
        Phase::Showing => match event {
            WindowEvent::Quit | WindowEvent::EscapeDown => Phase::Closed,
            WindowEvent::Other => Phase::Showing,
        },
    }
}

/// The window is still showing after a run of events exactly if it was
/// showing before and none of them asked for it to be closed.
pub proof fn lemma_showing(phase: Phase, events: Seq<WindowEvent>)
    ensures
        after_all(phase, events) == Phase::Showing <==> phase == Phase::Showing && forall|
            index: int,
        | 0 <= index < events.len() ==> events[index] == WindowEvent::Other,
    decreases events.len(),
{
    if events.len() > 0 {
        lemma_showing(phase, events.drop_last());
        if after_all(phase, events) == Phase::Showing {
            assert forall|index: int| 0 <= index < events.len() implies events[index]
                == WindowEvent::Other by {
                if index < events.len() - 1 {
                    assert(events.drop_last()[index] == events[index]);
                }
            }
        } else if phase == Phase::Showing && events.last() == WindowEvent::Other {
            let index = choose|index: int|
                0 <= index < events.len() - 1 && events.drop_last()[index] != WindowEvent::Other;
            assert(events[index] != WindowEvent::Other);
        }
    }
}

} // verus!
