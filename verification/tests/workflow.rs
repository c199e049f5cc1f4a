use convey::input::{CommandCandidates, InputKind, SelectCandidates};
use convey::template::Values;
use convey::workflow::{
    allow_empty_by_default, CandidatesError, RawCandidates, RawInput, RawInputEntry, RawInputKind, RawWorkflow,
    Workflow, WorkflowError,
};

fn textarea(name: &str, allow_empty: bool) -> RawInputEntry {
    RawInputEntry {
        name: Some(name.to_owned()),
        definition: Ok(RawInput {
            kind: RawInputKind::Textarea,
            allow_empty,
            depends_on: Vec::new(),
            candidates: None,
        }),
    }
}

fn select_values(name: &str, depends_on: &[&str], values: &[&str]) -> RawInputEntry {
    RawInputEntry {
        name: Some(name.to_owned()),
        definition: Ok(RawInput {
            kind: RawInputKind::Select,
            allow_empty: true,
            depends_on: depends_on.iter().map(|s| s.to_string()).collect(),
            candidates: Some(RawCandidates {
                values: Some(values.iter().map(|s| s.to_string()).collect()),
                command: None,
            }),
        }),
    }
}

fn select_command(name: &str, depends_on: &[&str], program: &str, args: &[&str]) -> RawInputEntry {
    RawInputEntry {
        name: Some(name.to_owned()),
        definition: Ok(RawInput {
            kind: RawInputKind::Select,
            allow_empty: true,
            depends_on: depends_on.iter().map(|s| s.to_string()).collect(),
            candidates: Some(RawCandidates {
                values: None,
                command: Some(CommandCandidates {
                    program: program.to_owned(),
                    args: args.iter().map(|s| s.to_string()).collect(),
                }),
            }),
        }),
    }
}

fn raw(name: &str, inputs: Vec<RawInputEntry>, template: &str) -> RawWorkflow {
    RawWorkflow {
        name: name.to_owned(),
        inputs,
        template: template.to_owned(),
    }
}

/// A workflow shaped like the kubernetes investigation in the README.
fn kubernetes() -> Workflow {
    Workflow::from_raw(raw(
        "kubernetes-investigation",
        vec![
            select_command("context", &[], "kubectl", &["config", "get-contexts", "-o", "name"]),
            select_command(
                "namespace",
                &["context"],
                "kubectl",
                &["--context", "{{ inputs.context }}", "get", "namespaces", "-o", "name"],
            ),
            select_values("resource_kind", &[], &["pod", "deployment", "daemonset"]),
            select_command(
                "resource",
                &["context", "namespace", "resource_kind"],
                "kubectl",
                &[
                    "--context",
                    "{{ inputs.context }}",
                    "-n",
                    "{{ inputs.namespace }}",
                    "get",
                    "{{ inputs.resource_kind }}",
                    "-o",
                    "name",
                ],
            ),
            textarea("request", false),
        ],
        "Investigate `{{ inputs.resource }}` in `{{ inputs.namespace }}`.\n\n{{ inputs.request }}\n",
    ))
    .unwrap()
}

fn values(pairs: &[(&str, &str)]) -> Values {
    let mut values = Values::new();
    for (key, value) in pairs {
        values.insert((*key).to_owned(), (*value).to_owned());
    }
    values
}

#[test]
fn preserves_input_order() {
    assert_eq!(
        kubernetes()
            .inputs()
            .iter()
            .map(|input| input.name.as_str())
            .collect::<Vec<_>>(),
        vec!["context", "namespace", "resource_kind", "resource", "request"]
    );
}

#[test]
fn renders_candidate_command_arguments_from_saved_inputs() {
    let workflow = kubernetes();
    let InputKind::Select(select) = &workflow.inputs()[1].kind else {
        panic!("namespace is not a select input");
    };
    let SelectCandidates::Command(command) = &select.candidates else {
        panic!("namespace does not use command candidates");
    };
    let values = values(&[("context", "production")]);

    let (program, args) = command.render(&values).unwrap();

    assert_eq!(program, "kubectl");
    assert_eq!(args[0..2], ["--context", "production"]);
}

#[test]
fn allows_empty_inputs_by_default() {
    let workflow =
        Workflow::from_raw(raw("test", vec![textarea("request", allow_empty_by_default())], "{{ inputs.request }}"))
            .unwrap();

    assert!(workflow.inputs()[0].allow_empty);
}

#[test]
fn kubernetes_investigation_requires_a_request() {
    let workflow = kubernetes();

    assert!(workflow
        .inputs()
        .iter()
        .filter(|input| input.name != "request")
        .all(|input| input.allow_empty));
    assert!(
        !workflow
            .inputs()
            .iter()
            .find(|input| input.name == "request")
            .unwrap()
            .allow_empty
    );
}

#[test]
fn reads_required_inputs() {
    let workflow = Workflow::from_raw(raw("test", vec![textarea("request", false)], "{{ inputs.request }}")).unwrap();

    assert!(!workflow.inputs()[0].allow_empty);
}

#[test]
fn renders_markdown_without_html_escaping() {
    let values = values(&[
        ("context", "production"),
        ("namespace", "payments"),
        ("resource_kind", "pod"),
        ("resource", "api"),
        ("request", "compare a < b & b > 0"),
    ]);

    let markdown = kubernetes().render(&values).unwrap();

    assert!(markdown.contains("compare a < b & b > 0"));
}

#[test]
fn renders_unset_optional_inputs_as_empty() {
    let workflow = Workflow::from_raw(raw("test", vec![textarea("request", true)], "Request: {{ inputs.request }}")).unwrap();

    assert_eq!(workflow.render(&Values::new()).unwrap(), "Request: ");
}

#[test]
fn rejects_forward_dependencies() {
    let source = raw(
        "invalid",
        vec![select_values("namespace", &["context"], &["default"])],
        "test",
    );

    assert!(Workflow::from_raw(source).is_err());
}

#[test]
fn rejects_a_select_that_depends_on_itself() {
    let source = raw("invalid", vec![select_values("context", &["context"], &["local"])], "test");

    let error = match Workflow::from_raw(source) {
        Ok(_) => panic!("a select that depends on itself was accepted"),
        Err(error) => error,
    };

    assert_eq!(
        error,
        WorkflowError::UnknownDependency { input: "context".to_owned(), dependency: "context".to_owned() }
    );
    assert_eq!(error.message(), "input context depends on unknown or later input context");
}

#[test]
fn accepts_a_select_that_depends_on_an_earlier_input() {
    let source = raw(
        "valid",
        vec![select_values("context", &[], &["local"]), select_values("namespace", &["context"], &["default"])],
        "test",
    );

    assert!(Workflow::from_raw(source).is_ok());
}

#[test]
fn rejects_textarea_dependencies() {
    let mut request = textarea("request", true);
    if let Ok(definition) = &mut request.definition {
        definition.depends_on = vec!["context".to_owned()];
    }
    let source = raw(
        "test",
        vec![select_values("context", &[], &["default"]), request],
        "test",
    );

    assert!(Workflow::from_raw(source).is_err());
}

#[test]
fn reports_each_rejection() {
    let check = |source: RawWorkflow, expected: WorkflowError, text: &str| {
        let error = Workflow::from_raw(source).err().unwrap();
        assert_eq!(error.message(), text);
        assert_eq!(error, expected);
    };
    check(raw("  ", vec![textarea("a", true)], "t"), WorkflowError::EmptyName, "workflow name must not be empty");
    check(raw("w", vec![], "t"), WorkflowError::NoInputs, "workflow requires at least one input");
    check(raw("w", vec![textarea("a", true)], " \n"), WorkflowError::EmptyTemplate, "output template must not be empty");
    check(
        raw("w", vec![textarea("a", true), textarea("a", true)], "t"),
        WorkflowError::DuplicateInput("a".into()),
        "duplicate input: a",
    );
    check(
        raw("w", vec![RawInputEntry { name: None, definition: Err("x".into()) }], "t"),
        WorkflowError::InputNameNotString,
        "input names must be strings",
    );
    check(
        raw("w", vec![textarea(" ", true)], "t"),
        WorkflowError::EmptyInputName,
        "input name must not be empty",
    );
    check(
        raw("w", vec![select_values("a", &["b"], &["x"])], "t"),
        WorkflowError::UnknownDependency { input: "a".into(), dependency: "b".into() },
        "input a depends on unknown or later input b",
    );
    check(
        raw("w", vec![select_values("a", &[], &[])], "t"),
        WorkflowError::InvalidCandidates { input: "a".into(), reason: CandidatesError::EmptyValues },
        "invalid candidates for select input a: candidate values must not be empty",
    );
    let mut missing = select_values("a", &[], &["x"]);
    if let Ok(definition) = &mut missing.definition {
        definition.candidates = None;
    }
    check(
        raw("w", vec![missing], "t"),
        WorkflowError::MissingCandidates("a".into()),
        "select input a requires candidates",
    );
    let mut both = select_values("a", &[], &["x"]);
    if let Ok(definition) = &mut both.definition {
        if let Some(candidates) = &mut definition.candidates {
            candidates.command = Some(CommandCandidates { program: "p".into(), args: vec![] });
        }
    }
    check(
        raw("w", vec![both], "t"),
        WorkflowError::InvalidCandidates { input: "a".into(), reason: CandidatesError::BothSources },
        "invalid candidates for select input a: candidates cannot contain both values and command sources",
    );
    let mut textarea_candidates = textarea("a", true);
    if let Ok(definition) = &mut textarea_candidates.definition {
        definition.candidates = Some(RawCandidates { values: Some(vec!["x".into()]), command: None });
    }
    check(
        raw("w", vec![textarea_candidates], "t"),
        WorkflowError::TextareaCandidates("a".into()),
        "textarea input a cannot define candidates",
    );
    check(
        raw("w", vec![RawInputEntry { name: Some("a".into()), definition: Err("bad input".into()) }], "t"),
        WorkflowError::InvalidInput { input: "a".into(), message: "bad input".into() },
        "bad input",
    );
}

#[test]
fn strict_templates_reject_unknown_required_inputs() {
    let workflow = Workflow::from_raw(raw("w", vec![textarea("request", false)], "{{ inputs.request }}")).unwrap();
    let error = workflow.render(&Values::new()).unwrap_err();
    assert!(error.starts_with("failed to render Markdown output: "));
}

#[test]
fn rejects_an_output_template_that_calls_a_partial() {
    let source = raw(
        "recursive",
        vec![textarea("request", false)],
        "{{#*inline \"a\"}}{{> a}}{{/inline}}{{> a}}",
    );
    let error = match Workflow::from_raw(source) {
        Ok(_) => panic!("a template that calls a partial was accepted"),
        Err(error) => error,
    };
    assert_eq!(error, WorkflowError::TemplateCallsPartial);
    assert_eq!(error.message(), "output template must not call partials");
}

#[test]
fn rejects_a_candidate_command_that_calls_a_partial() {
    let source = raw("w", vec![select_command("context", &[], "kubectl", &["{{~ #> a}}x{{/a}}"])], "t");
    let error = match Workflow::from_raw(source) {
        Ok(_) => panic!("a command that calls a partial was accepted"),
        Err(error) => error,
    };
    assert_eq!(
        error,
        WorkflowError::InvalidCandidates { input: "context".to_owned(), reason: CandidatesError::CommandCallsPartial }
    );
    assert_eq!(
        error.message(),
        "invalid candidates for select input context: candidate command templates must not call partials"
    );
}
