use vstd::prelude::*;

use crate::geometry::Cursor;

verus! {

#[derive(Clone, Copy, Debug, PartialEq, Eq, Structural, Hash)]
pub enum MouseButton {
    Left,
    Right,
    Middle,
}

/// The gesture an event carries. The movement delta of a `MouseMoved`
/// stays with the caller that fires the callbacks.
#[derive(Clone, Copy, Debug, PartialEq, Eq, Structural)]
pub enum EventKind {
    MouseMoved,
    MousePressed { button: MouseButton },
    MouseReleased { button: MouseButton },
}

#[derive(Clone, Copy, Debug, PartialEq, Eq, Structural)]
pub struct Event {
    pub kind: EventKind,
    pub cursor: Cursor,
}

} // verus!
