//! What the user holds down: keys, buttons, and how far each stick leans.

use crate::scalar::Scalar;
use std::collections::{HashMap, HashSet};
use vstd::prelude::*;

verus! {

broadcast use vstd::std_specs::hash::group_hash_axioms;

/// A key of the keyboard or a button of a game pad, each by the number that
/// its device gives it.
#[derive(Debug, Copy, Clone, PartialEq, Eq, Structural)]
pub enum Input {
    Key(u32),
    Button(u32),
}

impl Input {
    /// One number for each input: keys first, then buttons.
    pub open spec fn code_of(self) -> u64 {
        match self {
            Input::Key(k) => k as u64,
            Input::Button(b) => (0x1_0000_0000 + b) as u64,
        }
    }

    /// One number for each input.
    pub fn code(self) -> (c: u64)
        ensures
            c == self.code_of(),
    {
        match self {
            Input::Key(k) => k as u64,
            Input::Button(b) => 0x1_0000_0000 + b as u64,
        }
    }
}

/// Different inputs have different codes.
pub proof fn lemma_code_decides(a: Input, b: Input)
    requires
        a.code_of() == b.code_of(),
    ensures
        a == b,
{
}

/// The inputs that are held down, and the value of each axis that has
/// moved.
pub struct InputCollection {
    pub pressed_input: HashSet<u64>,
    pub axis_values: HashMap<u32, Scalar>,
}

impl InputCollection {
    /// Whether `key` is held down.
    pub open spec fn holds(&self, key: Input) -> bool {
        self.pressed_input@.contains(key.code_of())
    }

    /// The value of `axis`: zero until it has moved.
    pub open spec fn axis_of(&self, axis: u32) -> Scalar {
        if self.axis_values@.contains_key(axis) {
            self.axis_values@[axis]
        } else {
            Scalar::zero_spec()
        }
    }

    /// A collection in which nothing is held down and no axis has moved.
    pub fn new() -> (c: InputCollection)
        ensures
            forall|key: Input| !c.holds(key),
            forall|axis: u32| c.axis_of(axis) == Scalar::zero_spec(),
    {
        InputCollection { pressed_input: HashSet::new(), axis_values: HashMap::new() }
    }

    /// Records that `key` is held down.
    pub fn set(&mut self, key: Input)
        ensures
            final(self).holds(key),
            forall|other: Input| other != key ==> final(self).holds(other) == old(self).holds(other),
            final(self).axis_values == old(self).axis_values,
    {
        self.pressed_input.insert(key.code());
        assert forall|other: Input| other != key implies self.holds(other) == old(self).holds(
            other,
        ) by {
            if other.code_of() == key.code_of() {
                lemma_code_decides(other, key);
            }
        }
    }

    /// Records that `key` is no longer held down.
    pub fn unset(&mut self, key: Input)
        ensures
            !final(self).holds(key),
            forall|other: Input| other != key ==> final(self).holds(other) == old(self).holds(other),
            final(self).axis_values == old(self).axis_values,
    {
        let code = key.code();
        self.pressed_input.remove(&code);
        assert forall|other: Input| other != key implies self.holds(other) == old(self).holds(
            other,
        ) by {
            if other.code_of() == key.code_of() {
                lemma_code_decides(other, key);
            }
        }
    }

    /// Records the value of `axis`.
    pub fn set_axis(&mut self, axis: u32, value: Scalar)
        ensures
            final(self).axis_of(axis) == value,
            forall|other: u32| other != axis ==> final(self).axis_of(other) == old(self).axis_of(other),
            final(self).pressed_input == old(self).pressed_input,
    {
        self.axis_values.insert(axis, value);
    }

    /// Whether `key` is held down.
    pub fn is_pressed(&self, key: Input) -> (r: bool)
        ensures
            r == self.holds(key),
    {
        let code = key.code();
        self.pressed_input.contains(&code)
    }

    /// The value of `axis`.
    pub fn axis(&self, axis: u32) -> (r: Scalar)
        ensures
            r == self.axis_of(axis),
    {
        match self.axis_values.get(&axis) {
            Some(v) => *v,
            None => Scalar::zero(),
        }
    }
}

} // verus!
