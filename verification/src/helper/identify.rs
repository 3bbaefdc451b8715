//! Identity tags for kind-specific failures.
//!
//! Each conversion failure carries an identifier naming its variant, so
//! failures can be compared by kind while their payloads (the offending
//! tokens) differ.

use vstd::prelude::*;

use crate::str_eq;

verus! {

/// A value with an identity tag.
pub trait Identify {
    /// The tag, as the contract sees it.
    spec fn spec_identifier(&self) -> Seq<char>;

    /// The tag.
    fn get_identifier(&self) -> (r: String)
        ensures
            r@ == self.spec_identifier(),
    ;
}

/// A boxed value compared by its identity tag alone.
#[derive(Debug)]
pub struct IdBox<T: ?Sized + Identify>(Box<T>);

impl<T: Identify> IdBox<T> {
    /// The boxed value's tag.
    pub closed spec fn id(&self) -> Seq<char> {
        self.0.spec_identifier()
    }

    /// Boxes a tagged value.
    pub fn new(value: Box<T>) -> (r: IdBox<T>)
        ensures
            r.id() == value.spec_identifier(),
    {
        IdBox(value)
    }

    /// The tag of the boxed value.
    pub fn get_identifier(&self) -> (r: String)
        ensures
            r@ == self.id(),
    {
        self.0.get_identifier()
    }
}

impl<T: Identify> PartialEq for IdBox<T> {
    /// Two boxes are equal when their tags are: payloads do not count.
    fn eq(&self, other: &IdBox<T>) -> (r: bool) {
        let a = self.0.get_identifier();
        let b = other.0.get_identifier();
        str_eq(a.as_str(), b.as_str())
    }
}

impl<T: Identify> vstd::std_specs::cmp::PartialEqSpecImpl for IdBox<T> {
    open spec fn obeys_eq_spec() -> bool {
        true
    }

    open spec fn eq_spec(&self, other: &IdBox<T>) -> bool {
        self.id() == other.id()
    }
}

} // verus!
