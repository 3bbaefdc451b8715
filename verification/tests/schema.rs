use rxe::config::{
    DeserializedArgument, DeserializedCommand, DeserializedConfig, DeserializedConstraint,
};
use rxe::domain::{Argument, Constraints};

fn loaded_config() -> rxe::domain::Config {
    DeserializedConfig {
        cmd: vec![(
            "test".to_string(),
            DeserializedCommand {
                args: vec![
                    (
                        "type".to_string(),
                        DeserializedArgument {
                            constraint: DeserializedConstraint::Choice(vec![
                                "core".to_string(),
                                "frontend".to_string(),
                                "types".to_string(),
                            ]),
                            short: Some("t".to_string()),
                            multi: true,
                        },
                    ),
                    (
                        "snapshot".to_string(),
                        DeserializedArgument {
                            constraint: DeserializedConstraint::Flag,
                            short: None,
                            multi: false,
                        },
                    ),
                ],
                run: "pnpm --filter={type} test {snapshot|true=-u|false=}".to_string(),
            },
        )],
    }
    .into_config()
}

#[test]
fn accept_correct_yaml_content() {
    let config = loaded_config();

    let expected: Vec<Argument> = vec![
        Argument {
            name: "type".to_string(),
            constraint: Constraints::Choice(vec![
                "core".to_string(),
                "frontend".to_string(),
                "types".to_string(),
            ]),
            short_hand: Some("t".to_string()),
            multi: true,
        },
        Argument {
            name: "snapshot".to_string(),
            constraint: Constraints::Flag,
            short_hand: None,
            multi: false,
        },
    ];

    let cmd = config.command.get(0).expect("command length was 0");
    for arg in &cmd.args {
        let expected_arg = expected
            .iter()
            .find(|e| e.name == arg.name)
            .expect(&format!("Extraneous argument: {}", arg.name));

        assert_eq!(arg, expected_arg);
    }
}

#[test]
fn lookups_find_by_full_name() {
    let config = loaded_config();
    let cmd = config.get_command("test").expect("command should exist");
    assert_eq!(cmd.name, "test");
    assert!(config.get_command("nope").is_none());

    let arg = cmd.get_argument("snapshot").expect("argument should exist");
    assert_eq!(arg.constraint, Constraints::Flag);
    assert!(cmd.get_argument("t").is_none());
}

#[test]
fn constraint_conversion_keeps_candidates() {
    let converted = Constraints::from(DeserializedConstraint::Choice(vec![
        "a".to_string(),
        "b".to_string(),
    ]));
    assert_eq!(
        converted,
        Constraints::Choice(vec!["a".to_string(), "b".to_string()])
    );
    assert_eq!(Constraints::from(DeserializedConstraint::Text), Constraints::Text);
    assert_eq!(Constraints::from(DeserializedConstraint::Flag), Constraints::Flag);
    assert_eq!(Constraints::from(DeserializedConstraint::Number), Constraints::Number);
}
