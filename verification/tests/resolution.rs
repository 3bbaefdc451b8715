use rxe::command::{parse, ParseError};
use rxe::constraints::choice::ChoiceError;
use rxe::constraints::number::NumberParseError;
use rxe::constraints::{SpecificParseError, ValueParseError};
use rxe::config::{
    DeserializedArgument, DeserializedCommand, DeserializedConfig, DeserializedConstraint,
};
use rxe::domain::{ArgumentValue, Config};

fn test_config() -> Config {
    DeserializedConfig {
        cmd: vec![
            (
                "test".to_string(),
                DeserializedCommand {
                    args: vec![
                        (
                            "type".to_string(),
                            DeserializedArgument {
                                constraint: DeserializedConstraint::Choice(vec![
                                    "core".to_string(),
                                    "frontend".to_string(),
                                    "types".to_string(),
                                ]),
                                short: Some("t".to_string()),
                                multi: true,
                            },
                        ),
                        (
                            "snapshot".to_string(),
                            DeserializedArgument {
                                constraint: DeserializedConstraint::Flag,
                                short: None,
                                multi: false,
                            },
                        ),
                    ],
                    run: "pnpm --filter={type} test {snapshot|true=-u|false=}".to_string(),
                },
            ),
            (
                "calc".to_string(),
                DeserializedCommand {
                    args: vec![
                        (
                            "n".to_string(),
                            DeserializedArgument {
                                constraint: DeserializedConstraint::Number,
                                short: None,
                                multi: false,
                            },
                        ),
                        (
                            "label".to_string(),
                            DeserializedArgument {
                                constraint: DeserializedConstraint::Text,
                                short: None,
                                multi: false,
                            },
                        ),
                    ],
                    run: "echo {label}: {n}".to_string(),
                },
            ),
        ],
    }
    .into_config()
}

fn line(tokens: &[&str]) -> Vec<String> {
    tokens.iter().map(|t| t.to_string()).collect()
}

#[test]
fn end_to_end_resolves_choice_and_flag() {
    let config = test_config();
    let resolved = parse(&config, &line(&["test", "--type", "core", "--snapshot"])).unwrap();
    assert_eq!(resolved.name, "test");
    assert_eq!(
        resolved.args.get("type"),
        Some(&ArgumentValue::Choice("core".to_string()))
    );
    assert_eq!(resolved.args.get("snapshot"), Some(&ArgumentValue::Flag(true)));
    assert_eq!(resolved.args.len(), 2);
}

#[test]
fn end_to_end_missing_required_argument() {
    let config = test_config();
    let err = parse(&config, &line(&["test", "--snapshot"])).unwrap_err();
    assert_eq!(err, ParseError::InsufficientArgument);
}

#[test]
fn option_order_does_not_matter() {
    let config = test_config();
    let resolved = parse(&config, &line(&["test", "--snapshot", "--type", "core"])).unwrap();
    assert_eq!(
        resolved.args.get("type"),
        Some(&ArgumentValue::Choice("core".to_string()))
    );
    assert_eq!(resolved.args.get("snapshot"), Some(&ArgumentValue::Flag(true)));
}

#[test]
fn absent_flag_resolves_to_false() {
    let config = test_config();
    let resolved = parse(&config, &line(&["test", "--type", "core"])).unwrap();
    assert_eq!(resolved.args.get("snapshot"), Some(&ArgumentValue::Flag(false)));
}

#[test]
fn flag_never_consumes_a_value() {
    let config = test_config();
    let err = parse(&config, &line(&["test", "--snapshot", "core", "--type", "core"]))
        .unwrap_err();
    assert_eq!(err, ParseError::MalformedLine);
}

#[test]
fn zero_tokens_after_command_fails_for_required_arguments() {
    let config = test_config();
    let err = parse(&config, &line(&["test"])).unwrap_err();
    assert_eq!(err, ParseError::InsufficientArgument);
    let err = parse(&config, &line(&["calc"])).unwrap_err();
    assert_eq!(err, ParseError::InsufficientArgument);
}

#[test]
fn empty_line_and_unknown_command() {
    let config = test_config();
    assert_eq!(
        parse(&config, &line(&[])).unwrap_err(),
        ParseError::NoCommandSpecified
    );
    assert_eq!(
        parse(&config, &line(&["nope"])).unwrap_err(),
        ParseError::CommandNotExist
    );
}

#[test]
fn undeclared_option_is_rejected() {
    let config = test_config();
    assert_eq!(
        parse(&config, &line(&["test", "--bogus"])).unwrap_err(),
        ParseError::ArgumentNotExist
    );
    // A short option resolves against full argument names only.
    assert_eq!(
        parse(&config, &line(&["test", "-t"])).unwrap_err(),
        ParseError::ArgumentNotExist
    );
}

#[test]
fn malformed_token_shapes() {
    let config = test_config();
    for tokens in [
        vec!["test", "--type"],
        vec!["test", "core"],
        vec!["test", "---type"],
        vec!["test", "-ty", "core"],
        vec!["test", "--"],
        vec!["test", "-"],
    ] {
        let err = parse(&config, &line(&tokens)).unwrap_err();
        assert_eq!(err, ParseError::MalformedLine, "tokens {:?}", tokens);
    }
}

#[test]
fn conversion_failure_names_the_token() {
    let config = test_config();
    assert_eq!(
        parse(&config, &line(&["test", "--type", "x"])).unwrap_err(),
        ParseError::MalformedArgument(ValueParseError::ParseFailed(SpecificParseError::Choice(
            ChoiceError::NotIncluded("x".to_string())
        )))
    );
    assert_eq!(
        parse(&config, &line(&["calc", "--n", "abc", "--label", "l"])).unwrap_err(),
        ParseError::MalformedArgument(ValueParseError::ParseFailed(SpecificParseError::Number(
            NumberParseError::NumberParseFailure("abc".to_string())
        )))
    );
}

#[test]
fn value_token_quotes_are_stripped_once() {
    let config = test_config();
    let resolved = parse(
        &config,
        &line(&["calc", "--n", "42", "--label", "'hello world'"]),
    )
    .unwrap();
    assert_eq!(
        resolved.args.get("label"),
        Some(&ArgumentValue::Text("hello world".to_string()))
    );
    assert_eq!(resolved.args.get("n"), Some(&ArgumentValue::Number("42".to_string())));

    let twice = parse(&config, &line(&["calc", "--n", "1", "--label", "\"\"x\"\""])).unwrap();
    assert_eq!(
        twice.args.get("label"),
        Some(&ArgumentValue::Text("\"x\"".to_string()))
    );
}

#[test]
fn later_option_overrides_earlier_value() {
    let config = test_config();
    let resolved = parse(
        &config,
        &line(&["test", "--type", "core", "--type", "front"]),
    )
    .unwrap();
    assert_eq!(
        resolved.args.get("type"),
        Some(&ArgumentValue::Choice("frontend".to_string()))
    );
}

#[test]
fn resolved_arguments_fill_the_run_template() {
    let config = test_config();
    let resolved = parse(&config, &line(&["test", "--type", "core", "--snapshot"])).unwrap();
    let command = config.get_command(&resolved.name).unwrap();
    let script = rxe::placeholder::fill_placeholder(&command.run, &resolved.args).unwrap();
    assert_eq!(script, "pnpm --filter=core test -u");

    let resolved = parse(&config, &line(&["test", "--type", "f"])).unwrap();
    let script = rxe::placeholder::fill_placeholder(&command.run, &resolved.args).unwrap();
    assert_eq!(script, "pnpm --filter=frontend test ");
}
