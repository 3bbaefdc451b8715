//! The flag argument kind: a boolean raised by the option's bare presence.

use vstd::prelude::*;

use crate::domain::{ArgumentValue, ConstraintsV};
use crate::constraints::{convert_opt_v, fallback_v, value_result_v, ValueParseError};
use crate::placeholder::fill::render_v;
use crate::placeholder::{PlaceholderParseError, PlaceholderParseErrorV};
use crate::strmap::StrMap;

verus! {

/// The flag argument kind.
pub struct FlagConstraint;

impl FlagConstraint {
    /// Converts under the flag kind: seeing the option token alone raises
    /// the flag; an accompanying value is an error.
    pub fn parse_value(&self, value: Option<&str>) -> (r: Result<ArgumentValue, ValueParseError>)
        ensures
            value_result_v(r) == convert_opt_v(ConstraintsV::Flag, value.deep_view()),
    {
        match value {
            Some(_) => Err(ValueParseError::ValueUneccesary),
            None => Ok(ArgumentValue::Flag(true)),
        }
    }

    /// A flag never supplied falls back to false.
    pub fn fallback(&self) -> (r: Result<ArgumentValue, ValueParseError>)
        ensures
            value_result_v(r) == fallback_v(ConstraintsV::Flag),
    {
        Ok(ArgumentValue::Flag(false))
    }

    /// Renders a flag value: at least one of the `true`/`false` modifiers
    /// must be present, and the one matching the flag's state is rendered,
    /// or nothing if only the opposite side was supplied.
    pub fn fill_placeholder(&self, value: &ArgumentValue, placeholder_args: &StrMap<String>) -> (r:
        Result<String, PlaceholderParseError>)
        requires
            placeholder_args.wf(),
            value is Flag,
        ensures
            match r {
                Ok(s) => render_v(value.deep_view(), placeholder_args@) == Ok::<
                    Seq<char>,
                    PlaceholderParseErrorV,
                >(s@),
                Err(e) => render_v(value.deep_view(), placeholder_args@) == Err::<
                    Seq<char>,
                    PlaceholderParseErrorV,
                >(e.deep_view()),
            },
    {
        let flag = match value {
            ArgumentValue::Flag(f) => *f,
            _ => {
                return Err(PlaceholderParseError::CorruptedDuringFill);
            }
        };
        let if_true = placeholder_args.get("true");
        let if_false = placeholder_args.get("false");
        if if_true.is_none() && if_false.is_none() {
            return Err(PlaceholderParseError::InsufficientParameter(String::from_str(
                "either left or right",
            )));
        }
        if flag {
            match if_true {
                Some(s) => Ok(s.clone()),
                None => Ok(String::new()),
            }
        } else {
            match if_false {
                Some(s) => Ok(s.clone()),
                None => Ok(String::new()),
            }
        }
    }
}

} // verus!
