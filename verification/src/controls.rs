//! What the user holds down: the keys that steer the camera and the buttons
//! of the mouse. The host turns its window events into the values here and
//! gets back whether the event was taken.

use vstd::prelude::*;

verus! {

/// A key of the keyboard, as far as the camera cares.
pub enum Key {
    W,
    A,
    S,
    D,
    Other,
}

/// The directions in which the camera is being steered.
pub struct Inputs {
    pub forward: bool,
    pub backward: bool,
    pub left: bool,
    pub right: bool,
}

impl Default for Inputs {
    fn default() -> (r: Self)
        ensures
            r == (Inputs { forward: false, backward: false, left: false, right: false }),
    {
        Inputs { forward: false, backward: false, left: false, right: false }
    }
}

impl Inputs {
    /// The directions after `key` went down (`pressed`) or up: `W` steers
    /// forward, `S` backward, `A` left and `D` right; another key changes
    /// nothing.
    pub open spec fn after(self, key: Key, pressed: bool) -> Inputs {
        match key {
            Key::W => Inputs { forward: pressed, ..self },
            Key::S => Inputs { backward: pressed, ..self },
            Key::A => Inputs { left: pressed, ..self },
            Key::D => Inputs { right: pressed, ..self },
            Key::Other => self,
        }
    }

    /// Takes note that `key` went down or up. The result says whether the
    /// key is one that steers.
    pub fn process_input(&mut self, key: Key, pressed: bool) -> (taken: bool)
        ensures
            *final(self) == old(self).after(key, pressed),
            taken == !(key is Other),
    {
        match key {
            Key::W => {
                self.forward = pressed;
                true
            },
            Key::S => {
                self.backward = pressed;
                true
            },
            Key::A => {
                self.left = pressed;
                true
            },
            Key::D => {
                self.right = pressed;
                true
            },
            Key::Other => false,
        }
    }
}

/// A button of the mouse, as far as the canvas cares.
pub enum Button {
    Left,
    Right,
    Other,
}

/// What the mouse did.
pub enum Pointer {
    /// A button went down (`true`) or up.
    Pressed(Button, bool),
    /// The cursor moved.
    Moved,
    /// The wheel turned by lines.
    Scrolled,
    /// Anything else.
    Other,
}

/// The buttons of the mouse that are held down.
#[derive(Debug)]
pub struct Buttons {
    pub left: bool,
    pub right: bool,
}

impl Buttons {
    /// The buttons after the mouse did `event`.
    pub open spec fn after(self, event: Pointer) -> Buttons {
        match event {
            Pointer::Pressed(Button::Left, down) => Buttons { left: down, ..self },
            Pointer::Pressed(Button::Right, down) => Buttons { right: down, ..self },
            _ => self,
        }
    }

    /// Whether the canvas takes `event`, and is then drawn again: a button
    /// and the wheel always, a move of the cursor while a button is held.
    pub open spec fn takes(self, event: Pointer) -> bool {
        match event {
            Pointer::Pressed(_, _) => true,
            Pointer::Moved => self.left || self.right,
            Pointer::Scrolled => true,
            Pointer::Other => false,
        }
    }

    /// No button held.
    pub fn new() -> (r: Self)
        ensures
            r == (Buttons { left: false, right: false }),
    {
        Buttons { left: false, right: false }
    }

    /// Takes note of what the mouse did. The result says whether the canvas
    /// takes the event.
    pub fn input(&mut self, event: Pointer) -> (taken: bool)
        ensures
            *final(self) == old(self).after(event),
            taken == old(self).takes(event),
    {
        match event {
            Pointer::Pressed(button, down) => {
                match button {
                    Button::Left => {
                        self.left = down;
                    },
                    Button::Right => {
                        self.right = down;
                    },
                    Button::Other => {},
                }
                true
            },
            Pointer::Moved => self.left || self.right,
            Pointer::Scrolled => true,
            Pointer::Other => false,
        }
    }
}

} // verus!
