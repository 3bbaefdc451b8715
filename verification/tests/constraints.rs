use rxe::constraints::choice::{ChoiceConstraint, ChoiceError};
use rxe::constraints::flag::FlagConstraint;
use rxe::constraints::number::{NumberConstraint, NumberParseError};
use rxe::constraints::text::TextConstraint;
use rxe::constraints::{SpecificParseError, ValueParseError};
use rxe::domain::ArgumentValue;
use rxe::helper::identify::Identify;

#[test]
fn accept_and_raise_flag_when_value_is_not_supplied() {
    let parsed = FlagConstraint.parse_value(None);

    let parsed = parsed.expect("Should success, but failed");
    assert_eq!(parsed, ArgumentValue::Flag(true))
}

#[test]
fn decline_any_value() {
    let parsed = FlagConstraint.parse_value(Some("thing"));

    let error = parsed.expect_err("Should fail, but succeeded");
    assert_eq!(error, ValueParseError::ValueUneccesary)
}

#[test]
fn return_false_value_when_argument_is_not_specified() {
    let parsed = FlagConstraint.fallback();

    let parsed = parsed.expect("Should success, but failed");
    assert_eq!(parsed, ArgumentValue::Flag(false));
}

#[test]
fn accpet_any_value() {
    let parsed = TextConstraint.parse_value(Some("text"));

    let parsed = parsed.expect("Should success, but failed");
    assert_eq!(parsed, ArgumentValue::Text("text".to_string()))
}

#[test]
fn fail_fallback() {
    let parsed = TextConstraint.fallback();

    let error = parsed.expect_err("Should fail, but succeeded");
    assert_eq!(error, ValueParseError::ValueRequired)
}

#[test]
fn accepts_numeric_value() {
    let cases = [
        ("123", "123"),
        ("123456789.87654321", "123456789.87654321"),
        ("-500", "-500"),
        ("+123", "123"),
    ];
    for (input, expected) in cases {
        let parsed = NumberConstraint.parse_value(Some(input));
        let parsed = parsed.expect("Should success, but failed");
        assert_eq!(parsed, ArgumentValue::Number(expected.to_string()));
    }
}

#[test]
fn declines_non_numeric_value() {
    for input in ["Not numeric", "0xA", "A"] {
        let parsed = NumberConstraint.parse_value(Some(input));
        let error = parsed.expect_err("Should fail, but succeeded");
        let error = match error {
            ValueParseError::ParseFailed(f) => f,
            _ => panic!("Unexpected error yielded: {:#?}", error),
        };
        assert_eq!(
            error.get_identifier(),
            NumberParseError::NumberParseFailure(input.to_string()).get_identifier()
        );
        assert_eq!(
            error,
            SpecificParseError::Number(NumberParseError::NumberParseFailure(input.to_string()))
        );
    }
}

#[test]
fn number_canonical_text() {
    let cases = [
        ("007", "7"),
        ("1.50", "1.5"),
        (".5", "0.5"),
        ("5.", "5"),
        ("-0", "-0"),
        ("0.0", "0"),
        ("1e0", "1"),
        ("0e5", "0"),
        ("1E+02", "1e2"),
        ("2.5e-10", "2.5e-10"),
    ];
    for (input, expected) in cases {
        let parsed = NumberConstraint.parse_value(Some(input));
        let parsed = parsed.expect("Should success, but failed");
        assert_eq!(parsed, ArgumentValue::Number(expected.to_string()));
    }
}

#[test]
fn number_rejects_incomplete_literals() {
    for input in ["", ".", "1e", "1e+", "--5", "1.2.3", "1e2e3", "5 "] {
        let parsed = NumberConstraint.parse_value(Some(input));
        parsed.expect_err("Should fail, but succeeded");
    }
}

#[test]
fn number_fallback_fails() {
    let parsed = NumberConstraint.fallback();
    let error = parsed.expect_err("Should fail, but succeeded");
    assert_eq!(error, ValueParseError::ValueRequired)
}

fn spec_candidates() -> ChoiceConstraint {
    ChoiceConstraint::new(vec![
        "core".to_string(),
        "frontend".to_string(),
        "types".to_string(),
    ])
}

#[test]
fn choice_resolves_unique_prefix_to_full_candidate() {
    let constraint = spec_candidates();
    for (token, expected) in [("c", "core"), ("core", "core"), ("f", "frontend"), ("t", "types")] {
        let parsed = constraint.parse_value(Some(token));
        let parsed = parsed.expect("Should success, but failed");
        assert_eq!(parsed, ArgumentValue::Choice(expected.to_string()));
    }
}

#[test]
fn choice_rejects_shared_or_empty_prefix_as_ambiguous() {
    let constraint = ChoiceConstraint::new(vec![
        "ChoiceAAA".to_string(),
        "ChoiceBBB".to_string(),
        "DDD".to_string(),
    ]);
    for token in ["", "Choice"] {
        let parsed = constraint.parse_value(Some(token));
        let error = parsed.expect_err("Should fail, but succeeded");
        assert_eq!(
            error,
            ValueParseError::ParseFailed(SpecificParseError::Choice(ChoiceError::Ambiguous(
                token.to_string()
            )))
        );
    }
    let shared = spec_candidates().parse_value(Some(""));
    let error = shared.expect_err("Should fail, but succeeded");
    assert_eq!(
        error,
        ValueParseError::ParseFailed(SpecificParseError::Choice(ChoiceError::Ambiguous(
            "".to_string()
        )))
    );
}

#[test]
fn choice_rejects_unmatched_token_as_not_included() {
    let constraint = spec_candidates();
    let parsed = constraint.parse_value(Some("x"));
    let error = parsed.expect_err("Should fail, but succeeded");
    assert_eq!(
        error,
        ValueParseError::ParseFailed(SpecificParseError::Choice(ChoiceError::NotIncluded(
            "x".to_string()
        )))
    );
    assert_eq!(
        ChoiceError::NotIncluded("x".to_string()).get_identifier(),
        "ChoiceError::NotIncluded"
    );
    assert_eq!(
        ChoiceError::Ambiguous("x".to_string()).get_identifier(),
        "ChoiceError::Ambiguous"
    );
}

#[test]
fn choice_fallback_fails() {
    let parsed = spec_candidates().fallback();
    let error = parsed.expect_err("Should fail, but succeeded");
    assert_eq!(error, ValueParseError::ValueRequired)
}

#[test]
fn choice_with_single_candidate_accepts_empty_prefix() {
    let constraint = ChoiceConstraint::new(vec!["only".to_string()]);
    let parsed = constraint.parse_value(Some(""));
    assert_eq!(parsed.unwrap(), ArgumentValue::Choice("only".to_string()));
}
