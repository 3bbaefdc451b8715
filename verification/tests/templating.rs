use rxe::constraints::flag::FlagConstraint;
use rxe::constraints::number::NumberConstraint;
use rxe::constraints::text::TextConstraint;
use rxe::domain::ArgumentValue;
use rxe::placeholder::parse::parse_first_placeholder;
use rxe::placeholder::{fill_placeholder, PlaceholderParseError};
use rxe::strmap::StrMap;

fn chars_of(s: &str) -> Vec<char> {
    s.chars().collect()
}

fn values(pairs: &[(&str, ArgumentValue)]) -> StrMap<ArgumentValue> {
    let mut m = StrMap::new();
    for (k, v) in pairs {
        let copy = match v {
            ArgumentValue::Text(s) => ArgumentValue::Text(s.clone()),
            ArgumentValue::Flag(b) => ArgumentValue::Flag(*b),
            ArgumentValue::Number(s) => ArgumentValue::Number(s.clone()),
            ArgumentValue::Choice(s) => ArgumentValue::Choice(s.clone()),
        };
        m.insert(k.to_string(), copy);
    }
    m
}

#[test]
fn template_without_placeholders_is_unchanged() {
    let vals = values(&[("a", ArgumentValue::Text("V".to_string()))]);
    for template in ["", "plain text", "no } braces {", "a > b; echo done"] {
        assert_eq!(
            fill_placeholder(template, &vals),
            Ok(template.to_string()),
            "template {:?}",
            template
        );
    }
}

#[test]
fn template_sums_numbers_textually() {
    let vals = values(&[
        ("a", ArgumentValue::Number("1".to_string())),
        ("b", ArgumentValue::Number("1".to_string())),
        ("c", ArgumentValue::Number("2".to_string())),
    ]);
    assert_eq!(
        fill_placeholder("{a} + {b} = {c}", &vals),
        Ok("1 + 1 = 2".to_string())
    );
}

#[test]
fn escaped_placeholder_is_never_substituted() {
    let vals = values(&[("x", ArgumentValue::Text("V".to_string()))]);
    assert_eq!(
        fill_placeholder(r"\{x} {x}", &vals),
        Ok(r"\{x} V".to_string())
    );
    assert_eq!(fill_placeholder(r"\\{x}", &vals), Ok(r"\V".to_string()));
}

#[test]
fn can_fill_multiple_placeholders() {
    let vals = values(&[
        ("is_noon", ArgumentValue::Flag(true)),
        ("target", ArgumentValue::Text("world".to_string())),
    ]);
    assert_eq!(
        fill_placeholder("{is_noon|true=Hello|false=Good evening}, {target}!", &vals),
        Ok("Hello, world!".to_string())
    );

    let vals = values(&[("fill", ArgumentValue::Text("FILLED".to_string()))]);
    assert_eq!(
        fill_placeholder(r"\{fill} {fill} \{fill} {fill}", &vals),
        Ok(r"\{fill} FILLED \{fill} FILLED".to_string())
    );
}

#[test]
fn can_handle_only_single_escape() {
    let vals = values(&[("fill", ArgumentValue::Text("FILLED".to_string()))]);
    assert_eq!(
        fill_placeholder(r"{fill} \{fill} \\{fill} \\\{fill} \\\\{fill}", &vals),
        Ok(r"FILLED \{fill} \FILLED \\FILLED \\\FILLED".to_string())
    );
}

#[test]
fn remaining_artifacts_collapse_in_final_pass() {
    let vals = values(&[("x", ArgumentValue::Text("V".to_string()))]);
    assert_eq!(
        fill_placeholder(r"\\{unclosed", &vals),
        Ok(r"\{unclosed".to_string())
    );
}

#[test]
fn missing_argument_is_reported() {
    let vals = values(&[]);
    assert_eq!(
        fill_placeholder("{missing}", &vals),
        Err(PlaceholderParseError::NotExistingArgument)
    );
}

#[test]
fn flag_placeholder_needs_a_branch_modifier() {
    let vals = values(&[("f", ArgumentValue::Flag(true))]);
    assert_eq!(
        fill_placeholder("{f}", &vals),
        Err(PlaceholderParseError::InsufficientParameter(
            "either left or right".to_string()
        ))
    );
    assert_eq!(fill_placeholder("{f|false=no}", &vals), Ok("".to_string()));
    assert_eq!(fill_placeholder("{f|true=yes}", &vals), Ok("yes".to_string()));

    let vals = values(&[("f", ArgumentValue::Flag(false))]);
    assert_eq!(fill_placeholder("{f|true=yes}", &vals), Ok("".to_string()));
    assert_eq!(fill_placeholder("{f|false=no}", &vals), Ok("no".to_string()));
}

#[test]
fn parses_unmalformed_placeholder() {
    let cases: [(&str, &str, &[(&str, &str)]); 3] = [
        ("{args}", "args", &[]),
        ("{args|name=value}", "args", &[("name", "value")]),
        (
            "{args|name=value|another=hoge=fuga}",
            "args",
            &[("name", "value"), ("another", "hoge=fuga")],
        ),
    ];
    for (template, arg_name, params) in cases {
        let parsed = parse_first_placeholder(&chars_of(template), 0)
            .expect("Should success, but failed")
            .expect("Placeholder should be found, but it couldn't be found");
        assert_eq!(parsed.start, 0);
        assert_eq!(parsed.end, template.chars().count());
        assert_eq!(parsed.prefix, "");
        assert_eq!(parsed.arg_name, arg_name);
        assert_eq!(parsed.args.len(), params.len());
        for (k, v) in params {
            assert_eq!(parsed.args.get(k).map(|s| s.as_str()), Some(*v));
        }
    }
}

#[test]
fn declines_malformed_placeholder() {
    for template in ["{args|}", "{args|namevalue}"] {
        let error = parse_first_placeholder(&chars_of(template), 0)
            .expect_err("Should fail, but succeeded");
        assert_eq!(error, PlaceholderParseError::MalformedParameter);
    }
}

#[test]
fn can_find_appropriate_placeholder() {
    for template in [
        r"\{espaced} {should_be_found}",
        r"{should_be_found} \{espaced}",
        r"Something not \{espaced} but the placeholder that {should_be_found}",
    ] {
        let parsed = parse_first_placeholder(&chars_of(template), 0)
            .expect("Should success, but failed")
            .expect("Placeholder should be found, but it couldn't be found");
        assert_eq!(parsed.arg_name, "should_be_found");
    }
}

#[test]
fn placeholder_scan_resumes_after_substitution() {
    let vals = values(&[
        ("a", ArgumentValue::Text("{b}".to_string())),
        ("b", ArgumentValue::Text("B".to_string())),
    ]);
    // A substituted value is never re-scanned for placeholders.
    assert_eq!(fill_placeholder("{a}{b}", &vals), Ok("{b}B".to_string()));
}

#[test]
fn later_duplicate_modifier_wins() {
    let vals = values(&[("f", ArgumentValue::Flag(true))]);
    assert_eq!(
        fill_placeholder("{f|true=first|true=second}", &vals),
        Ok("second".to_string())
    );
}

#[test]
fn per_kind_renderers_follow_the_value() {
    let mut mods: StrMap<String> = StrMap::new();
    mods.insert("true".to_string(), "yes".to_string());

    assert_eq!(
        TextConstraint.fill_placeholder(&ArgumentValue::Text("raw".to_string()), &mods),
        Ok("raw".to_string())
    );
    assert_eq!(
        NumberConstraint.fill_placeholder(&ArgumentValue::Number("2.5".to_string()), &mods),
        Ok("2.5".to_string())
    );
    assert_eq!(
        FlagConstraint.fill_placeholder(&ArgumentValue::Flag(true), &mods),
        Ok("yes".to_string())
    );
    assert_eq!(
        FlagConstraint.fill_placeholder(&ArgumentValue::Flag(false), &mods),
        Ok("".to_string())
    );
    let empty: StrMap<String> = StrMap::new();
    assert_eq!(
        FlagConstraint.fill_placeholder(&ArgumentValue::Flag(true), &empty),
        Err(PlaceholderParseError::InsufficientParameter(
            "either left or right".to_string()
        ))
    );
}
