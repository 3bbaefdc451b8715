//! The boolean value wrapper.

use vstd::prelude::*;

use crate::values::Value;

verus! {

/// A resolved boolean value.
pub struct FlagValue(bool);

impl View for FlagValue {
    type V = bool;

    closed spec fn view(&self) -> bool {
        self.0
    }
}

impl Value for FlagValue {
    type ValueType = bool;

    closed spec fn spec_get(&self) -> bool {
        self.0
    }

    fn get(&self) -> (r: bool)
        ensures
            r == self@,
    {
        self.0
    }
}

impl FlagValue {
    /// Wraps a boolean.
    pub fn new(value: bool) -> (r: Self)
        ensures
            r@ == value,
    {
        FlagValue(value)
    }
}

} // verus!
