//! Rendering one placeholder from the resolved values.

use vstd::prelude::*;

use crate::domain::{ArgumentValue, ValueV};
use crate::strmap::StrMap;
use crate::placeholder::{Placeholder, PlaceholderParseError, PlaceholderParseErrorV};

verus! {

/// What rendering a value with the placeholder's modifiers yields: text,
/// choice and number values render their stored text; a flag requires at
/// least one of the `true`/`false` modifiers and renders the one matching
/// its state, or nothing if only the opposite side was supplied.
pub open spec fn render_v(v: ValueV, params: Map<Seq<char>, Seq<char>>) -> Result<
    Seq<char>,
    PlaceholderParseErrorV,
> {
    match v {
        ValueV::Text(t) => Ok(t),
        ValueV::Choice(c) => Ok(c),
        ValueV::Number(n) => Ok(n),
        ValueV::Flag(b) => if !params.contains_key("true"@) && !params.contains_key("false"@) {
            Err(PlaceholderParseErrorV::InsufficientParameter("either left or right"@))
        } else if b {
            if params.contains_key("true"@) {
                Ok(params["true"@])
            } else {
                Ok(Seq::empty())
            }
        } else {
            if params.contains_key("false"@) {
                Ok(params["false"@])
            } else {
                Ok(Seq::empty())
            }
        },
    }
}

/// Renders a resolved value under the placeholder's modifiers.
pub fn render_value(value: &ArgumentValue, params: &StrMap<String>) -> (r: Result<
    String,
    PlaceholderParseError,
>)
    requires
        params.wf(),
    ensures
        match r {
            Ok(s) => render_v(value.deep_view(), params@) == Ok::<
                Seq<char>,
                PlaceholderParseErrorV,
            >(s@),
            Err(e) => render_v(value.deep_view(), params@) == Err::<
                Seq<char>,
                PlaceholderParseErrorV,
            >(e.deep_view()),
        },
{
    match value {
        ArgumentValue::Text(_) => crate::constraints::text::TextConstraint.fill_placeholder(
            value,
            params,
        ),
        ArgumentValue::Choice(_) => crate::constraints::text::TextConstraint.fill_placeholder(
            value,
            params,
        ),
        ArgumentValue::Number(_) => crate::constraints::number::NumberConstraint.fill_placeholder(
            value,
            params,
        ),
        ArgumentValue::Flag(_) => crate::constraints::flag::FlagConstraint.fill_placeholder(
            value,
            params,
        ),
    }
}

/// Renders the placeholder's argument from the resolved values: the name
/// must be bound, and its value renders under the placeholder's modifiers.
pub fn fill_first_placeholder(values: &StrMap<ArgumentValue>, ph: &Placeholder) -> (r: Result<
    String,
    PlaceholderParseError,
>)
    requires
        values.wf(),
        ph.args.wf(),
    ensures
        match r {
            Ok(s) => values@.contains_key(ph.arg_name@) && render_v(
                values@[ph.arg_name@],
                ph.args@,
            ) == Ok::<Seq<char>, PlaceholderParseErrorV>(s@),
            Err(e) => if values@.contains_key(ph.arg_name@) {
                render_v(values@[ph.arg_name@], ph.args@) == Err::<
                    Seq<char>,
                    PlaceholderParseErrorV,
                >(e.deep_view())
            } else {
                e.deep_view() == PlaceholderParseErrorV::NotExistingArgument
            },
        },
{
    match values.get(ph.arg_name.as_str()) {
        None => Err(PlaceholderParseError::NotExistingArgument),
        Some(v) => render_value(v, &ph.args),
    }
}

} // verus!
