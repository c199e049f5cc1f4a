use convey::workflow::{RawInput, RawInputEntry, RawInputKind, RawWorkflow, Workflow};
use convey::select::NavigationDirection;
use convey::workflow_selector::{is_yaml, SaveStep, WorkflowSelector};

fn workflow(name: &str) -> Workflow {
    Workflow::from_raw(RawWorkflow {
        name: name.to_owned(),
        inputs: vec![RawInputEntry {
            name: Some("request".to_owned()),
            definition: Ok(RawInput {
                kind: RawInputKind::Textarea,
                allow_empty: true,
                depends_on: Vec::new(),
                candidates: None,
            }),
        }],
        template: "{{ inputs.request }}".to_owned(),
    })
    .ok()
    .unwrap()
}

fn entries(names: &[&str]) -> Vec<(String, String)> {
    names.iter().map(|name| (format!("/workflows/{name}"), name.to_string())).collect()
}

/// Saves the selected file, loading it where it must be loaded with the
/// workflow that `load` gives for its path.
fn save(selector: &mut WorkflowSelector, load: impl Fn(&str) -> Result<Workflow, String>) -> Option<bool> {
    let loaded = match selector.save_step() {
        SaveStep::Load(path) => Some(load(&path)),
        _ => None,
    };
    selector.save(loaded)
}

#[test]
fn finds_yaml_files_and_loads_the_selected_workflow() {
    let mut selector = WorkflowSelector::from_directory("/workflows", entries(&["ignored.txt", "workflow.yml"])).ok().unwrap();

    assert_eq!(save(&mut selector, |_| Ok(workflow("Test workflow"))), Some(true));
    assert_eq!(selector.selected().unwrap().name(), "Test workflow");
    assert_eq!(selector.value_label(), "Test workflow — workflow.yml");
}

#[test]
fn directly_selected_file_starts_with_its_workflow_loaded() {
    let selector = WorkflowSelector::from_file("/workflows/workflow.yaml".to_owned(), "workflow.yaml".to_owned(), workflow("Test workflow"));

    assert_eq!(selector.selected().unwrap().name(), "Test workflow");
    assert_eq!(selector.value_label(), "Test workflow — workflow.yaml");
}

#[test]
fn changes_the_loaded_workflow_when_the_selection_moves() {
    let mut selector = WorkflowSelector::from_directory("/workflows", entries(&["second.yaml", "first.yaml"])).ok().unwrap();
    let load = |path: &str| Ok(workflow(if path.ends_with("first.yaml") { "First" } else { "Second" }));
    assert_eq!(save(&mut selector, load), Some(true));
    assert_eq!(selector.selected().unwrap().name(), "First");

    selector.navigate(NavigationDirection::Next);

    assert_eq!(save(&mut selector, load), Some(true));
    assert_eq!(selector.selected().unwrap().name(), "Second");
}

#[test]
fn reports_invalid_yaml_without_selecting_it() {
    let mut selector = WorkflowSelector::from_directory("/workflows", entries(&["invalid.yaml"])).ok().unwrap();

    assert_eq!(save(&mut selector, |path| Err(format!("failed to parse workflow {path}: missing field `name`"))), None);
    assert!(selector.selected().is_none());
    assert!(selector.error_message().unwrap().contains("invalid.yaml"));
}

#[test]
fn rejects_a_directory_without_yaml_files() {
    let error = WorkflowSelector::from_directory("/workflows", entries(&["ignored.txt"])).err().unwrap();

    assert!(error.contains("contains no YAML files"));
    assert_eq!(error, "workflow directory /workflows contains no YAML files");
}

#[test]
fn saving_the_loaded_file_again_changes_nothing() {
    let mut selector = WorkflowSelector::from_file("/workflows/a.yaml".to_owned(), "a.yaml".to_owned(), workflow("A"));

    assert!(matches!(selector.save_step(), SaveStep::Keep));
    assert_eq!(selector.save(None), Some(false));
    assert_eq!(selector.selected().unwrap().name(), "A");
}

#[test]
fn recognizes_yaml_extensions_in_any_case() {
    assert!(is_yaml("workflow.yaml"));
    assert!(is_yaml("workflow.YML"));
    assert!(is_yaml("a.b.Yaml"));
    assert!(!is_yaml("workflow.txt"));
    assert!(!is_yaml(".yaml"));
    assert!(!is_yaml("yaml"));
    assert!(!is_yaml("workflow.yaml.bak"));
}
