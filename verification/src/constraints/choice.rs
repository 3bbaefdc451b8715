//! The choice argument kind.
//!
//! A choice argument declares an ordered list of candidate strings. A token
//! is accepted when it is a case-sensitive prefix of exactly one candidate,
//! and resolves to that full candidate; no match and more than one match are
//! distinct failures, each naming the offending token.

use vstd::prelude::*;

use crate::chars::{is_char_prefix, to_chars};
use crate::domain::{ArgumentValue, ConstraintsV};
use crate::constraints::{convert_opt_v, value_result_v, SpecificParseError, ValueParseError};

verus! {

/// Why a token was not accepted as a choice: a prefix of several candidates,
/// or of none.
#[derive(Debug, PartialEq)]
pub enum ChoiceError {
    Ambiguous(String),
    NotIncluded(String),
}

/// Ghost mirror of `ChoiceError`.
pub enum ChoiceErrorV {
    Ambiguous(Seq<char>),
    NotIncluded(Seq<char>),
}

impl DeepView for ChoiceError {
    type V = ChoiceErrorV;

    open spec fn deep_view(&self) -> ChoiceErrorV {
        match self {
            ChoiceError::Ambiguous(s) => ChoiceErrorV::Ambiguous(s@),
            ChoiceError::NotIncluded(s) => ChoiceErrorV::NotIncluded(s@),
        }
    }
}

impl crate::helper::identify::Identify for ChoiceError {
    open spec fn spec_identifier(&self) -> Seq<char> {
        match self {
            ChoiceError::Ambiguous(_) => "ChoiceError::Ambiguous"@,
            ChoiceError::NotIncluded(_) => "ChoiceError::NotIncluded"@,
        }
    }

    fn get_identifier(&self) -> (r: String) {
        match self {
            ChoiceError::Ambiguous(_) => String::from_str("ChoiceError::Ambiguous"),
            ChoiceError::NotIncluded(_) => String::from_str("ChoiceError::NotIncluded"),
        }
    }
}

/// The candidates the token is a prefix of, in declaration order.
pub open spec fn choice_matches(cands: Seq<Seq<char>>, tok: Seq<char>) -> Seq<Seq<char>>
    decreases cands.len(),
{
    if cands.len() == 0 {
        Seq::empty()
    } else {
        choice_matches(cands.drop_last(), tok) + (if tok.is_prefix_of(cands.last()) {
            seq![cands.last()]
        } else {
            Seq::empty()
        })
    }
}

/// Converts a token (or its absence) against a candidate list. A present
/// token resolves to the unique candidate it is a prefix of; absence is an
/// error, as are zero or several matching candidates.
pub fn parse_choice(cands: &Vec<String>, value: Option<&str>) -> (r: Result<
    ArgumentValue,
    ValueParseError,
>)
    ensures
        value_result_v(r) == convert_opt_v(ConstraintsV::Choice(cands.deep_view()), value.deep_view()),
{
    let s = match value {
        None => {
            return Err(ValueParseError::ValueRequired);
        }
        Some(s) => s,
    };
    let tok = to_chars(s);
    let ghost dv = cands.deep_view();
    let n = cands.len();
    let mut count: usize = 0;
    let mut first: usize = 0;
    let mut i: usize = 0;
    while i < n
        invariant
            dv == cands.deep_view(),
            n == cands@.len(),
            tok@ == s@,
            i <= n,
            count <= i,
            count == choice_matches(dv.take(i as int), tok@).len(),
            count > 0 ==> first < i && tok@.is_prefix_of(dv[first as int]) && choice_matches(
                dv.take(i as int),
                tok@,
            )[0] == dv[first as int],
        decreases n - i,
    {
        let cand = to_chars(cands[i].as_str());
        proof {
            assert(dv[i as int] == cands@[i as int].deep_view());
            assert(dv.take(i as int + 1).drop_last() =~= dv.take(i as int));
            assert(dv.take(i as int + 1).last() == dv[i as int]);
        }
        if is_char_prefix(&tok, &cand) {
            if count == 0 {
                first = i;
            }
            count = count + 1;
        }
        i = i + 1;
    }
    proof {
        assert(dv.take(n as int) =~= dv);
    }
    if count == 0 {
        Err(ValueParseError::ParseFailed(SpecificParseError::Choice(ChoiceError::NotIncluded(
            s.to_owned(),
        ))))
    } else if count > 1 {
        Err(ValueParseError::ParseFailed(SpecificParseError::Choice(ChoiceError::Ambiguous(
            s.to_owned(),
        ))))
    } else {
        Ok(ArgumentValue::Choice(cands[first].clone()))
    }
}

/// The choice argument kind: a list of candidate strings.
pub struct ChoiceConstraint {
    choices: Vec<String>,
}

impl View for ChoiceConstraint {
    type V = Seq<Seq<char>>;

    closed spec fn view(&self) -> Seq<Seq<char>> {
        self.choices.deep_view()
    }
}

impl ChoiceConstraint {
    /// Creates the kind from its candidate list.
    pub fn new(choices: Vec<String>) -> (r: Self)
        ensures
            r@ == choices.deep_view(),
    {
        Self { choices }
    }

    /// Converts a token (or its absence) against this kind's candidates.
    pub fn parse_value(&self, value: Option<&str>) -> (r: Result<ArgumentValue, ValueParseError>)
        ensures
            value_result_v(r) == convert_opt_v(ConstraintsV::Choice(self@), value.deep_view()),
    {
        parse_choice(&self.choices, value)
    }

    /// A choice argument has no fallback: leaving it out is an error.
    pub fn fallback(&self) -> (r: Result<ArgumentValue, ValueParseError>)
        ensures
            r == Err::<ArgumentValue, ValueParseError>(ValueParseError::ValueRequired),
    {
        Err(ValueParseError::ValueRequired)
    }

    /// Renders a choice value: the full matched candidate, modifiers
    /// unused.
    pub fn fill_placeholder(
        &self,
        value: &ArgumentValue,
        placeholder_args: &crate::strmap::StrMap<String>,
    ) -> (r: Result<String, crate::placeholder::PlaceholderParseError>)
        requires
            value is Choice,
        ensures
            match r {
                Ok(s) => crate::placeholder::fill::render_v(value.deep_view(), placeholder_args@)
                    == Ok::<Seq<char>, crate::placeholder::PlaceholderParseErrorV>(s@),
                Err(e) => crate::placeholder::fill::render_v(value.deep_view(), placeholder_args@)
                    == Err::<Seq<char>, crate::placeholder::PlaceholderParseErrorV>(e.deep_view()),
            },
    {
        match value {
            ArgumentValue::Choice(t) => Ok(t.clone()),
            _ => Err(crate::placeholder::PlaceholderParseError::CorruptedDuringFill),
        }
    }
}

} // verus!
