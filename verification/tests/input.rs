use convey::field::InputField;
use convey::input::{
    decode_candidates, CommandCandidates, CommandRenderError, InputDefinition, InputKind, SelectCandidates,
    SelectDefinition,
};
use convey::template::{render, template_calls_partial, Values};

#[test]
fn decodes_non_empty_trimmed_lines() {
    assert_eq!(
        decode_candidates("first\n  second  \r\n\n   \nthird"),
        vec!["first", "second", "third"]
    );
    assert!(decode_candidates("").is_empty());
}

#[test]
fn reports_the_failing_command_template() {
    let values = Values::new();
    let command = CommandCandidates {
        program: "{{ inputs.missing }}".into(),
        args: vec![],
    };
    assert!(matches!(command.render(&values), Err(CommandRenderError::Program(_))));

    let command = CommandCandidates {
        program: "kubectl".into(),
        args: vec!["ok".into(), "{{ inputs.missing }}".into()],
    };
    let error = command.render(&values).unwrap_err();
    assert!(matches!(error, CommandRenderError::Argument(_)));
    assert!(error.message().starts_with("invalid command argument: "));
}

#[test]
fn renders_saved_values_without_escaping() {
    let mut values = Values::new();
    values.insert("a".into(), "<b>".into());
    values.insert("a".into(), "x & y".into());
    assert_eq!(values.len(), 1);
    assert_eq!(render("{{ inputs.a }}!", &values).unwrap(), "x & y!");
    assert_eq!(values.get("a").map(String::as_str), Some("x & y"));
    assert!(values.get("b").is_none());
}

#[test]
fn decoded_candidates_decode_to_themselves() {
    let candidates = decode_candidates("  alpha \r\n\n\tbeta gamma\t\n   \ndelta");
    assert_eq!(candidates, vec!["alpha", "beta gamma", "delta"]);
    assert_eq!(decode_candidates(&candidates.join("\n")), candidates);
}

#[test]
fn recognises_the_opening_of_a_partial_call() {
    assert!(template_calls_partial("{{> a}}"));
    assert!(template_calls_partial("x {{~ \n#>a}}{{/a}}"));
    assert!(template_calls_partial("{{#*inline \"a\"}}{{> a}}{{/inline}}{{> a}}"));
    assert!(!template_calls_partial("{{inputs.count}} > 3"));
    assert!(!template_calls_partial("a > b and {{#if inputs.x}}y{{/if}}"));
    assert!(!template_calls_partial("{{ x }}>"));
}

#[test]
fn a_command_that_calls_a_partial_is_not_prepared() {
    let definition = InputDefinition {
        name: "context".to_owned(),
        allow_empty: false,
        kind: InputKind::Select(SelectDefinition {
            depends_on: Vec::new(),
            candidates: SelectCandidates::Command(CommandCandidates {
                program: "echo".to_owned(),
                args: vec!["{{> a}}".to_owned()],
            }),
        }),
    };
    let mut field = InputField::from_definition(&definition);
    assert!(CommandCandidates { program: "echo".to_owned(), args: vec!["{{> a}}".to_owned()] }.calls_partial());
    assert_eq!(
        field.command_task(&Values::new()).unwrap_err(),
        "failed to prepare candidates for context: candidate command templates must not call partials"
    );
}
