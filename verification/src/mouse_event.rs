use vstd::prelude::*;

verus! {

/// What the mouse did.
#[derive(Copy, Clone, Debug, PartialEq, Eq, Structural)]
pub enum Kind {
    LeftClick,
    RightClick,
    MiddleClick,
    Move(i32, i32),
    Scroll(i32),
}

/// A mouse event at a position on the screen.
#[derive(Copy, Clone, Debug)]
pub struct MouseEvent {
    pub kind: Kind,
    pub x: i32,
    pub y: i32,
}

impl MouseEvent {
    /// An event of the given kind at `(mouse_x, mouse_y)`.
    pub fn new(kind: Kind, mouse_x: i32, mouse_y: i32) -> (event: MouseEvent)
        ensures
            event.kind == kind,
            event.x == mouse_x,
            event.y == mouse_y,
    {
        MouseEvent { kind, x: mouse_x, y: mouse_y }
    }
}

} // verus!
