//! The text value wrapper.

use vstd::prelude::*;

use crate::values::Value;

verus! {

/// A resolved text value.
pub struct TextValue(String);

impl View for TextValue {
    type V = Seq<char>;

    closed spec fn view(&self) -> Seq<char> {
        self.0@
    }
}

impl Value for TextValue {
    type ValueType = String;

    closed spec fn spec_get(&self) -> String {
        self.0
    }

    fn get(&self) -> (r: String)
        ensures
            r@ == self@,
    {
        self.0.clone()
    }
}

impl TextValue {
    /// Wraps a string.
    pub fn new(value: String) -> (r: TextValue)
        ensures
            r@ == value@,
    {
        Self(value)
    }
}

} // verus!
