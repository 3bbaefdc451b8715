//! Typed wrappers around resolved plain values.

pub mod flag;
pub mod text;

use vstd::prelude::*;

verus! {

/// A wrapper exposing the plain value it holds.
pub trait Value {
    type ValueType;

    /// The held value, as the contract sees it.
    spec fn spec_get(&self) -> Self::ValueType;

    /// The held value.
    fn get(&self) -> Self::ValueType;
}

} // verus!
