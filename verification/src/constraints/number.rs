//! The numeric argument kind.
//!
//! A numeric token is a decimal literal: an optional sign, then digits with
//! at most one decimal point (and at least one digit), then an optional
//! exponent part (`e` or `E`, an optional sign, and digits). An accepted
//! token is stored in its canonical decimal text: the `+` sign dropped,
//! leading zeros of the integer part and trailing zeros of the fraction
//! removed, a zero-valued or zero-mantissa exponent dropped, and the
//! exponent marker lowercased.

use vstd::prelude::*;

use crate::chars::{from_chars, sub_chars, to_chars};
use crate::domain::ArgumentValue;
use crate::constraints::{SpecificParseError, ValueParseError, value_result_v};
use crate::constraints::{convert_opt_v};
use crate::domain::ConstraintsV;

verus! {

/// Why a token was not accepted as a number: it was not a decimal literal.
#[derive(Debug, PartialEq)]
pub enum NumberParseError {
    NumberParseFailure(String),
}

/// Ghost mirror of `NumberParseError`.
pub enum NumberParseErrorV {
    NumberParseFailure(Seq<char>),
}

impl DeepView for NumberParseError {
    type V = NumberParseErrorV;

    open spec fn deep_view(&self) -> NumberParseErrorV {
        match self {
            NumberParseError::NumberParseFailure(s) => NumberParseErrorV::NumberParseFailure(s@),
        }
    }
}

impl crate::helper::identify::Identify for NumberParseError {
    open spec fn spec_identifier(&self) -> Seq<char> {
        "NumberParseError::NumberParseFailure"@
    }

    fn get_identifier(&self) -> (r: String) {
        String::from_str("NumberParseError::NumberParseFailure")
    }
}

pub open spec fn is_digit(c: char) -> bool {
    '0' <= c <= '9'
}

pub open spec fn is_exp_char(c: char) -> bool {
    c == 'e' || c == 'E'
}

pub open spec fn is_sign_char(c: char) -> bool {
    c == '+' || c == '-'
}

/// Whether the sequence starts with a minus sign.
pub open spec fn sign_is_neg(s: Seq<char>) -> bool {
    s.len() > 0 && s[0] == '-'
}

/// The sequence with one leading sign removed.
pub open spec fn after_sign(s: Seq<char>) -> Seq<char> {
    if s.len() > 0 && is_sign_char(s[0]) {
        s.skip(1)
    } else {
        s
    }
}

/// The first position at or after `i` holding a decimal point.
pub open spec fn find_dot_from(s: Seq<char>, i: int) -> Option<int>
    decreases s.len() - i,
{
    if i < 0 || i >= s.len() {
        None
    } else if s[i] == '.' {
        Some(i)
    } else {
        find_dot_from(s, i + 1)
    }
}

/// The first position at or after `i` holding an exponent marker.
pub open spec fn find_exp_from(s: Seq<char>, i: int) -> Option<int>
    decreases s.len() - i,
{
    if i < 0 || i >= s.len() {
        None
    } else if is_exp_char(s[i]) {
        Some(i)
    } else {
        find_exp_from(s, i + 1)
    }
}

pub open spec fn all_digits(s: Seq<char>) -> bool {
    forall|j: int| 0 <= j < s.len() ==> is_digit(#[trigger] s[j])
}

/// A mantissa: digits with at most one decimal point and at least one digit.
pub open spec fn is_mantissa(s: Seq<char>) -> bool {
    match find_dot_from(s, 0) {
        None => s.len() > 0 && all_digits(s),
        Some(k) => s.len() >= 2 && forall|j: int|
            0 <= j < s.len() && j != k ==> is_digit(#[trigger] s[j]),
    }
}

/// An exponent body: an optional sign and at least one digit.
pub open spec fn is_exp_digits(s: Seq<char>) -> bool {
    after_sign(s).len() > 0 && all_digits(after_sign(s))
}

/// Whether a token is a decimal literal.
pub open spec fn is_number_literal(s: Seq<char>) -> bool {
    let b = after_sign(s);
    match find_exp_from(b, 0) {
        None => is_mantissa(b),
        Some(k) => is_mantissa(b.take(k)) && is_exp_digits(b.skip(k + 1)),
    }
}

pub open spec fn strip_leading_zeros(s: Seq<char>) -> Seq<char>
    decreases s.len(),
{
    if s.len() > 0 && s[0] == '0' {
        strip_leading_zeros(s.skip(1))
    } else {
        s
    }
}

pub open spec fn strip_trailing_zeros(s: Seq<char>) -> Seq<char>
    decreases s.len(),
{
    if s.len() > 0 && s[s.len() - 1] == '0' {
        strip_trailing_zeros(s.drop_last())
    } else {
        s
    }
}

/// The canonical text assembled from a sign, a mantissa and an exponent
/// part (empty when the token had none).
pub open spec fn assemble_canon(neg: bool, mant: Seq<char>, epart: Seq<char>) -> Seq<char> {
    let intd = match find_dot_from(mant, 0) {
        None => mant,
        Some(k) => mant.take(k),
    };
    let fracd = match find_dot_from(mant, 0) {
        None => Seq::<char>::empty(),
        Some(k) => mant.skip(k + 1),
    };
    let ci = strip_leading_zeros(intd);
    let cf = strip_trailing_zeros(fracd);
    let ce = strip_leading_zeros(after_sign(epart));
    let mzero = ci.len() == 0 && cf.len() == 0;
    let sign_s: Seq<char> = if neg {
        seq!['-']
    } else {
        Seq::<char>::empty()
    };
    let int_s: Seq<char> = if ci.len() == 0 {
        seq!['0']
    } else {
        ci
    };
    let frac_s: Seq<char> = if cf.len() > 0 {
        seq!['.'] + cf
    } else {
        Seq::<char>::empty()
    };
    let exp_s: Seq<char> = if ce.len() > 0 && !mzero {
        seq!['e'] + (if sign_is_neg(epart) {
            seq!['-']
        } else {
            Seq::<char>::empty()
        }) + ce
    } else {
        Seq::<char>::empty()
    };
    sign_s + int_s + frac_s + exp_s
}

/// The canonical decimal text of an accepted numeric token.
pub open spec fn canon_number(s: Seq<char>) -> Seq<char> {
    let b = after_sign(s);
    match find_exp_from(b, 0) {
        None => assemble_canon(sign_is_neg(s), b, Seq::<char>::empty()),
        Some(k) => assemble_canon(sign_is_neg(s), b.take(k), b.skip(k + 1)),
    }
}

fn exec_is_digit(c: char) -> (r: bool)
    ensures
        r == is_digit(c),
{
    '0' <= c && c <= '9'
}

fn find_dot(v: &Vec<char>, from: usize) -> (r: Option<usize>)
    requires
        from <= v@.len(),
    ensures
        match r {
            Some(k) => from <= k < v@.len() && find_dot_from(v@, from as int) == Some(k as int),
            None => find_dot_from(v@, from as int) is None,
        },
{
    let n = v.len();
    let mut i: usize = from;
    while i < n
        invariant
            from <= i <= n,
            n == v@.len(),
            find_dot_from(v@, from as int) == find_dot_from(v@, i as int),
        decreases n - i,
    {
        if v[i] == '.' {
            return Some(i);
        }
        i = i + 1;
    }
    None
}

fn find_exp(v: &Vec<char>, from: usize) -> (r: Option<usize>)
    requires
        from <= v@.len(),
    ensures
        match r {
            Some(k) => from <= k < v@.len() && find_exp_from(v@, from as int) == Some(k as int),
            None => find_exp_from(v@, from as int) is None,
        },
{
    let n = v.len();
    let mut i: usize = from;
    while i < n
        invariant
            from <= i <= n,
            n == v@.len(),
            find_exp_from(v@, from as int) == find_exp_from(v@, i as int),
        decreases n - i,
    {
        if v[i] == 'e' || v[i] == 'E' {
            return Some(i);
        }
        i = i + 1;
    }
    None
}

fn check_all_digits(v: &Vec<char>) -> (r: bool)
    ensures
        r == all_digits(v@),
{
    let n = v.len();
    let mut i: usize = 0;
    while i < n
        invariant
            i <= n,
            n == v@.len(),
            forall|j: int| 0 <= j < i ==> is_digit(#[trigger] v@[j]),
        decreases n - i,
    {
        if !exec_is_digit(v[i]) {
            proof {
                assert(!is_digit(v@[i as int]));
            }
            return false;
        }
        i = i + 1;
    }
    true
}

fn check_mantissa(v: &Vec<char>) -> (r: bool)
    ensures
        r == is_mantissa(v@),
{
    match find_dot(v, 0) {
        None => v.len() > 0 && check_all_digits(v),
        Some(k) => {
            if v.len() < 2 {
                return false;
            }
            let n = v.len();
            let mut i: usize = 0;
            while i < n
                invariant
                    i <= n,
                    n == v@.len(),
                    k < n,
                    find_dot_from(v@, 0) == Some(k as int),
                    forall|j: int| 0 <= j < i && j != k ==> is_digit(#[trigger] v@[j]),
                decreases n - i,
            {
                if i != k && !exec_is_digit(v[i]) {
                    proof {
                        assert(!is_digit(v@[i as int]));
                    }
                    return false;
                }
                i = i + 1;
            }
            true
        }
    }
}

/// The vector with one leading sign removed, plus whether it was a minus.
fn split_sign(v: &Vec<char>) -> (r: (bool, Vec<char>))
    ensures
        r.0 == sign_is_neg(v@),
        r.1@ == after_sign(v@),
{
    if v.len() > 0 && (v[0] == '+' || v[0] == '-') {
        let rest = sub_chars(v, 1, v.len());
        proof {
            assert(rest@ =~= after_sign(v@));
        }
        (v[0] == '-', rest)
    } else {
        let rest = sub_chars(v, 0, v.len());
        proof {
            assert(rest@ =~= v@);
        }
        (v.len() > 0 && v[0] == '-', rest)
    }
}

fn strip_lead_zeros(v: &Vec<char>) -> (r: Vec<char>)
    ensures
        r@ == strip_leading_zeros(v@),
{
    let n = v.len();
    let mut i: usize = 0;
    proof {
        assert(v@.skip(0) =~= v@);
    }
    while i < n && v[i] == '0'
        invariant
            i <= n,
            n == v@.len(),
            strip_leading_zeros(v@) == strip_leading_zeros(v@.skip(i as int)),
        decreases n - i,
    {
        proof {
            assert(v@.skip(i as int)[0] == v@[i as int]);
            assert(v@.skip(i as int).skip(1) =~= v@.skip(i as int + 1));
        }
        i = i + 1;
    }
    let r = sub_chars(v, i, n);
    proof {
        assert(r@ =~= v@.skip(i as int));
        if i < n {
            assert(v@.skip(i as int)[0] == v@[i as int]);
        }
    }
    r
}

fn strip_trail_zeros(v: &Vec<char>) -> (r: Vec<char>)
    ensures
        r@ == strip_trailing_zeros(v@),
{
    let n = v.len();
    let mut i: usize = n;
    proof {
        assert(v@.take(n as int) =~= v@);
    }
    while i > 0 && v[i - 1] == '0'
        invariant
            i <= n,
            n == v@.len(),
            strip_trailing_zeros(v@) == strip_trailing_zeros(v@.take(i as int)),
        decreases i,
    {
        proof {
            assert(v@.take(i as int).drop_last() =~= v@.take(i as int - 1));
            assert(v@.take(i as int)[i as int - 1] == v@[i as int - 1]);
        }
        i = i - 1;
    }
    let r = sub_chars(v, 0, i);
    proof {
        assert(r@ =~= v@.take(i as int));
        if i > 0 {
            assert(v@.take(i as int)[i as int - 1] == v@[i as int - 1]);
        }
    }
    r
}

/// Builds the canonical text from the split pieces of an accepted token.
#[verifier::rlimit(60)]
fn assemble(neg: bool, mant: &Vec<char>, epart: &Vec<char>) -> (r: Vec<char>)
    ensures
        r@ == assemble_canon(neg, mant@, epart@),
{
    let mn = mant.len();
    let (intd, fracd) = match find_dot(mant, 0) {
        None => (sub_chars(mant, 0, mn), Vec::<char>::new()),
        Some(k) => {
            let intd0 = sub_chars(mant, 0, k);
            let fracd0 = sub_chars(mant, k + 1, mn);
            (intd0, fracd0)
        }
    };
    proof {
        match find_dot_from(mant@, 0) {
            None => {
                assert(intd@ =~= mant@);
            }
            Some(k) => {
                assert(intd@ =~= mant@.take(k));
                assert(fracd@ =~= mant@.skip(k + 1));
            }
        }
    }
    let (exp_neg, exp_digits) = split_sign(epart);
    let ci = strip_lead_zeros(&intd);
    let cf = strip_trail_zeros(&fracd);
    let ce = strip_lead_zeros(&exp_digits);
    let mzero = ci.len() == 0 && cf.len() == 0;
    let mut out: Vec<char> = Vec::new();
    if neg {
        out.push('-');
    }
    if ci.len() == 0 {
        out.push('0');
    } else {
        crate::chars::append_chars(&mut out, &ci);
    }
    if cf.len() > 0 {
        out.push('.');
        crate::chars::append_chars(&mut out, &cf);
    }
    if ce.len() > 0 && !mzero {
        out.push('e');
        if exp_neg {
            out.push('-');
        }
        crate::chars::append_chars(&mut out, &ce);
    }
    proof {
        assert(out@ =~= assemble_canon(neg, mant@, epart@));
    }
    out
}

/// Converts a numeric token to its canonical decimal text, or reports that
/// it is not a decimal literal.
pub fn parse_number(t: &Vec<char>) -> (r: Option<Vec<char>>)
    ensures
        match r {
            Some(c) => is_number_literal(t@) && c@ == canon_number(t@),
            None => !is_number_literal(t@),
        },
{
    let (neg, b) = split_sign(t);
    match find_exp(&b, 0) {
        None => {
            if !check_mantissa(&b) {
                return None;
            }
            let empty_exp: Vec<char> = Vec::new();
            Some(assemble(neg, &b, &empty_exp))
        }
        Some(k) => {
            let bn = b.len();
            let mant = sub_chars(&b, 0, k);
            let exp_body = sub_chars(&b, k + 1, bn);
            proof {
                assert(mant@ =~= b@.take(k as int));
                assert(exp_body@ =~= b@.skip(k as int + 1));
            }
            if !check_mantissa(&mant) {
                return None;
            }
            let (_, exp_digits) = split_sign(&exp_body);
            if exp_digits.len() == 0 || !check_all_digits(&exp_digits) {
                return None;
            }
            Some(assemble(neg, &mant, &exp_body))
        }
    }
}

/// The numeric argument kind: converts tokens to canonical decimal text.
pub struct NumberConstraint;

impl NumberConstraint {
    /// Converts a token (or its absence) under the numeric kind. A present
    /// token is accepted exactly when it is a decimal literal, and resolves
    /// to its canonical text; absence is an error, as is a non-numeric
    /// token, which the error names.
    pub fn parse_value(&self, value: Option<&str>) -> (r: Result<ArgumentValue, ValueParseError>)
        ensures
            value_result_v(r) == convert_opt_v(ConstraintsV::Number, value.deep_view()),
    {
        match value {
            None => Err(ValueParseError::ValueRequired),
            Some(s) => {
                let cs = to_chars(s);
                match parse_number(&cs) {
                    Some(c) => Ok(ArgumentValue::Number(from_chars(&c))),
                    None => Err(ValueParseError::ParseFailed(SpecificParseError::Number(
                        NumberParseError::NumberParseFailure(s.to_owned()),
                    ))),
                }
            }
        }
    }

    /// A numeric argument has no fallback: leaving it out is an error.
    pub fn fallback(&self) -> (r: Result<ArgumentValue, ValueParseError>)
        ensures
            r == Err::<ArgumentValue, ValueParseError>(ValueParseError::ValueRequired),
    {
        Err(ValueParseError::ValueRequired)
    }

    /// Renders a numeric value: its canonical decimal text, modifiers
    /// unused.
    pub fn fill_placeholder(
        &self,
        value: &ArgumentValue,
        placeholder_args: &crate::strmap::StrMap<String>,
    ) -> (r: Result<String, crate::placeholder::PlaceholderParseError>)
        requires
            value is Number,
        ensures
            match r {
                Ok(s) => crate::placeholder::fill::render_v(value.deep_view(), placeholder_args@)
                    == Ok::<Seq<char>, crate::placeholder::PlaceholderParseErrorV>(s@),
                Err(e) => crate::placeholder::fill::render_v(value.deep_view(), placeholder_args@)
                    == Err::<Seq<char>, crate::placeholder::PlaceholderParseErrorV>(e.deep_view()),
            },
    {
        match value {
            ArgumentValue::Number(n) => Ok(n.clone()),
            _ => Err(crate::placeholder::PlaceholderParseError::CorruptedDuringFill),
        }
    }
}

} // verus!
