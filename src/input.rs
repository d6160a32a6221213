//! The state of the player's controls.
use vstd::prelude::*;

verus! {

#[derive(Clone, Copy, PartialEq, Eq, Structural, Debug)]
pub enum Control {
    Left,
    Right,
    Up,
    Down,
    Fire,
    Special,
}

#[derive(Clone, Copy, PartialEq, Eq, Structural, Debug)]
pub struct Inputs {
    pub left: bool,
    pub right: bool,
    pub up: bool,
    pub down: bool,
    pub fire: bool,
    pub special: bool,
}

impl Inputs {
    /// Every control released.
    pub open spec fn released() -> Inputs {
        Inputs { left: false, right: false, up: false, down: false, fire: false, special: false }
    }

    /// The inputs with `control` held or released.
    pub open spec fn with(self, control: Control, down: bool) -> Inputs {
        match control {
            Control::Left => Inputs { left: down, ..self },
            Control::Right => Inputs { right: down, ..self },
            Control::Up => Inputs { up: down, ..self },
            Control::Down => Inputs { down: down, ..self },
            Control::Fire => Inputs { fire: down, ..self },
            Control::Special => Inputs { special: down, ..self },
        }
    }

    pub fn new() -> (i: Inputs)
        ensures
            i == Inputs::released(),
    {
        Inputs { left: false, right: false, up: false, down: false, fire: false, special: false }
    }

    pub fn reset(&mut self)
        ensures
            *final(self) == Inputs::released(),
    {
        self.left = false;
        self.right = false;
        self.up = false;
        self.down = false;
        self.fire = false;
        self.special = false;
    }

    /// Records `control` as held (`down`) or released.
    pub fn set_control(&mut self, control: Control, down: bool)
        ensures
            *final(self) == old(self).with(control, down),
    {
        match control {
            Control::Left => self.left = down,
            Control::Right => self.right = down,
            Control::Up => self.up = down,
            Control::Down => self.down = down,
            Control::Fire => self.fire = down,
            Control::Special => self.special = down,
        }
    }
}

} // verus!
