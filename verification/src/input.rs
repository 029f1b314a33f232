//! The pointer: where the cursor is, which buttons are held, and what is
//! to be drawn when the surface is redrawn.

use vstd::prelude::*;

verus! {

#[derive(Clone, Copy, Debug, PartialEq, Eq, Structural)]
pub enum MouseButton {
    Left,
    Right,
    Other,
}

/// What the pointer asks to be drawn at a redraw.
#[derive(Clone, Copy, Debug, PartialEq, Eq)]
pub enum Stroke {
    /// No button is held.
    Idle,
    /// The left button is held: paint from `last_cursor` to `cursor`.
    Paint { cursor: (i32, i32), last_cursor: (i32, i32) },
    /// The right button alone is held: erase from `last_cursor` to `cursor`.
    Erase { cursor: (i32, i32), last_cursor: (i32, i32) },
}

/// The cursor in whole pixels of the canvas, its place at the last redraw,
/// and the buttons that are held.
#[derive(Clone, Copy, Debug, PartialEq, Eq)]
pub struct Pointer {
    pub cursor_position: (i32, i32),
    pub last_cursor_position: (i32, i32),
    pub holding_mouse_left: bool,
    pub holding_mouse_right: bool,
}

impl Default for Pointer {
    /// A pointer at the origin with no button held.
    fn default() -> (pointer: Self)
        ensures
            pointer.cursor_position == (0i32, 0i32),
            pointer.last_cursor_position == (0i32, 0i32),
            !pointer.holding_mouse_left,
            !pointer.holding_mouse_right,
    {
        Pointer {
            cursor_position: (0, 0),
            last_cursor_position: (0, 0),
            holding_mouse_left: false,
            holding_mouse_right: false,
        }
    }
}

impl Pointer {
    /// What a redraw draws: the left button paints, the right button
    /// erases, and the left one wins where both are held.
    pub open spec fn due(&self) -> Stroke {
        if self.holding_mouse_left {
            Stroke::Paint { cursor: self.cursor_position, last_cursor: self.last_cursor_position }
        } else if self.holding_mouse_right {
            Stroke::Erase { cursor: self.cursor_position, last_cursor: self.last_cursor_position }
        } else {
            Stroke::Idle
        }
    }

    /// The cursor has moved to `position`.
    pub fn cursor_moved(&mut self, position: (i32, i32))
        ensures
            *final(self) == (Pointer { cursor_position: position, ..*old(self) }),
    {
        self.cursor_position = position;
    }

    /// A button was pressed or released. Only the left and the right
    /// button are kept track of.
    pub fn mouse_input(&mut self, button: MouseButton, pressed: bool)
        ensures
            *final(self) == (match button {
                MouseButton::Left => Pointer { holding_mouse_left: pressed, ..*old(self) },
                MouseButton::Right => Pointer { holding_mouse_right: pressed, ..*old(self) },
                MouseButton::Other => *old(self),
            }),
    {
        match button {
            MouseButton::Left => {
                self.holding_mouse_left = pressed;
            },
            MouseButton::Right => {
                self.holding_mouse_right = pressed;
            },
            MouseButton::Other => {},
        }
    }

    /// The surface is redrawn: says what is to be drawn first, and takes
    /// the cursor's place as the start of the next stroke.
    pub fn redraw(&mut self) -> (stroke: Stroke)
        ensures
            stroke == old(self).due(),
            *final(self) == (Pointer {
                last_cursor_position: old(self).cursor_position,
                ..*old(self)
            }),
    {
        let stroke = if self.holding_mouse_left {
            Stroke::Paint { cursor: self.cursor_position, last_cursor: self.last_cursor_position }
        } else if self.holding_mouse_right {
            Stroke::Erase { cursor: self.cursor_position, last_cursor: self.last_cursor_position }
        } else {
            Stroke::Idle
        };
        self.last_cursor_position = self.cursor_position;
        stroke
    }
}

} // verus!
