//! The text argument kind: any present token is accepted verbatim.

use vstd::prelude::*;

use crate::domain::{ArgumentValue, ConstraintsV};
use crate::constraints::{convert_opt_v, value_result_v, ValueParseError};
use crate::placeholder::fill::render_v;
use crate::placeholder::{PlaceholderParseError, PlaceholderParseErrorV};
use crate::strmap::StrMap;

verus! {

/// The text argument kind.
pub struct TextConstraint;

impl TextConstraint {
    /// Converts a token (or its absence) under the text kind: any string,
    /// including the empty one, is accepted verbatim; absence is an error.
    pub fn parse_value(&self, value: Option<&str>) -> (r: Result<ArgumentValue, ValueParseError>)
        ensures
            value_result_v(r) == convert_opt_v(ConstraintsV::Text, value.deep_view()),
    {
        match value {
            None => Err(ValueParseError::ValueRequired),
            Some(s) => Ok(ArgumentValue::Text(s.to_owned())),
        }
    }

    /// A text argument has no fallback: leaving it out is an error.
    pub fn fallback(&self) -> (r: Result<ArgumentValue, ValueParseError>)
        ensures
            r == Err::<ArgumentValue, ValueParseError>(ValueParseError::ValueRequired),
    {
        Err(ValueParseError::ValueRequired)
    }

    /// Renders a text or choice value: its raw string, modifiers unused.
    pub fn fill_placeholder(&self, value: &ArgumentValue, placeholder_args: &StrMap<String>) -> (r:
        Result<String, PlaceholderParseError>)
        requires
            value is Text || value is Choice,
        ensures
            match r {
                Ok(s) => render_v(value.deep_view(), placeholder_args@) == Ok::<
                    Seq<char>,
                    PlaceholderParseErrorV,
                >(s@),
                Err(e) => render_v(value.deep_view(), placeholder_args@) == Err::<
                    Seq<char>,
                    PlaceholderParseErrorV,
                >(e.deep_view()),
            },
    {
        match value {
            ArgumentValue::Text(t) => Ok(t.clone()),
            ArgumentValue::Choice(t) => Ok(t.clone()),
            _ => Err(PlaceholderParseError::CorruptedDuringFill),
        }
    }
}

} // verus!
