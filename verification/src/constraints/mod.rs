//! The constraint system: per-kind conversion, fallback and rendering.
//!
//! Each argument kind converts a raw token (or its absence) into an
//! `ArgumentValue`, supplies the value used when the argument never appears,
//! and renders a resolved value back into template text. The kind-specific
//! failures form one closed union, so errors compare structurally.

pub mod choice;
pub mod flag;
pub mod number;
pub mod text;

use vstd::prelude::*;

use crate::domain::{ArgumentValue, Constraints, ConstraintsV, ValueV};
use crate::constraints::choice::{choice_matches, ChoiceError, ChoiceErrorV};
use crate::constraints::number::{
    canon_number, is_number_literal, NumberParseError, NumberParseErrorV,
};
use crate::helper::identify::Identify;

verus! {

/// A kind-specific conversion failure: the closed union of the numeric and
/// choice failures.
#[derive(Debug, PartialEq)]
pub enum SpecificParseError {
    Number(NumberParseError),
    Choice(ChoiceError),
}

/// Ghost mirror of `SpecificParseError`.
pub enum SpecificParseErrorV {
    Number(NumberParseErrorV),
    Choice(ChoiceErrorV),
}

impl DeepView for SpecificParseError {
    type V = SpecificParseErrorV;

    open spec fn deep_view(&self) -> SpecificParseErrorV {
        match self {
            SpecificParseError::Number(e) => SpecificParseErrorV::Number(e.deep_view()),
            SpecificParseError::Choice(e) => SpecificParseErrorV::Choice(e.deep_view()),
        }
    }
}

impl crate::helper::identify::Identify for SpecificParseError {
    open spec fn spec_identifier(&self) -> Seq<char> {
        match self {
            SpecificParseError::Number(e) => e.spec_identifier(),
            SpecificParseError::Choice(e) => e.spec_identifier(),
        }
    }

    fn get_identifier(&self) -> (r: String) {
        match self {
            SpecificParseError::Number(e) => e.get_identifier(),
            SpecificParseError::Choice(e) => e.get_identifier(),
        }
    }
}

/// Why a token (or its absence) was not converted: a required value was
/// missing, an unexpected value was supplied, or the kind refused the token.
#[derive(Debug, PartialEq)]
pub enum ValueParseError {
    ValueRequired,
    ValueUneccesary,
    ParseFailed(SpecificParseError),
}

/// Ghost mirror of `ValueParseError`.
pub enum ValueParseErrorV {
    ValueRequired,
    ValueUneccesary,
    ParseFailed(SpecificParseErrorV),
}

impl DeepView for ValueParseError {
    type V = ValueParseErrorV;

    open spec fn deep_view(&self) -> ValueParseErrorV {
        match self {
            ValueParseError::ValueRequired => ValueParseErrorV::ValueRequired,
            ValueParseError::ValueUneccesary => ValueParseErrorV::ValueUneccesary,
            ValueParseError::ParseFailed(e) => ValueParseErrorV::ParseFailed(e.deep_view()),
        }
    }
}

/// The deep view of a conversion result.
pub open spec fn value_result_v(r: Result<ArgumentValue, ValueParseError>) -> Result<
    ValueV,
    ValueParseErrorV,
> {
    match r {
        Ok(v) => Ok(v.deep_view()),
        Err(e) => Err(e.deep_view()),
    }
}

/// What converting a present token yields under each kind: text verbatim; a
/// flag refuses any value; a number becomes its canonical decimal text; a
/// choice token must be a prefix of exactly one candidate, resolving to that
/// full candidate.
pub open spec fn convert_v(c: ConstraintsV, tok: Seq<char>) -> Result<ValueV, ValueParseErrorV> {
    match c {
        ConstraintsV::Text => Ok(ValueV::Text(tok)),
        ConstraintsV::Flag => Err(ValueParseErrorV::ValueUneccesary),
        ConstraintsV::Number => if is_number_literal(tok) {
            Ok(ValueV::Number(canon_number(tok)))
        } else {
            Err(
                ValueParseErrorV::ParseFailed(
                    SpecificParseErrorV::Number(NumberParseErrorV::NumberParseFailure(tok)),
                ),
            )
        },
        ConstraintsV::Choice(cands) => {
            let m = choice_matches(cands, tok);
            if m.len() == 0 {
                Err(
                    ValueParseErrorV::ParseFailed(
                        SpecificParseErrorV::Choice(ChoiceErrorV::NotIncluded(tok)),
                    ),
                )
            } else if m.len() > 1 {
                Err(
                    ValueParseErrorV::ParseFailed(
                        SpecificParseErrorV::Choice(ChoiceErrorV::Ambiguous(tok)),
                    ),
                )
            } else {
                Ok(ValueV::Choice(m[0]))
            }
        },
    }
}

/// What converting yields when the option's own token was seen: a flag
/// raises to true on absence of a value; every other kind requires one.
pub open spec fn convert_opt_v(c: ConstraintsV, tok: Option<Seq<char>>) -> Result<
    ValueV,
    ValueParseErrorV,
> {
    match tok {
        None => match c {
            ConstraintsV::Flag => Ok(ValueV::Flag(true)),
            _ => Err(ValueParseErrorV::ValueRequired),
        },
        Some(t) => convert_v(c, t),
    }
}

/// The value used when an argument never appears: false for a flag, an
/// error for every other kind.
pub open spec fn fallback_v(c: ConstraintsV) -> Result<ValueV, ValueParseErrorV> {
    match c {
        ConstraintsV::Flag => Ok(ValueV::Flag(false)),
        _ => Err(ValueParseErrorV::ValueRequired),
    }
}

/// Converts a token (or its absence) under a declared kind.
pub fn convert_value(c: &Constraints, value: Option<&str>) -> (r: Result<
    ArgumentValue,
    ValueParseError,
>)
    ensures
        value_result_v(r) == convert_opt_v(c.deep_view(), value.deep_view()),
{
    match c {
        Constraints::Text => text::TextConstraint.parse_value(value),
        Constraints::Flag => flag::FlagConstraint.parse_value(value),
        Constraints::Number => number::NumberConstraint.parse_value(value),
        Constraints::Choice(cands) => choice::parse_choice(cands, value),
    }
}

/// The fallback value of a declared kind.
pub fn fallback_value(c: &Constraints) -> (r: Result<ArgumentValue, ValueParseError>)
    ensures
        value_result_v(r) == fallback_v(c.deep_view()),
{
    match c {
        Constraints::Flag => Ok(ArgumentValue::Flag(false)),
        _ => Err(ValueParseError::ValueRequired),
    }
}

} // verus!
