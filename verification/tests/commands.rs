use rah::commands::{
    activation_script, completion_supported, exec_requirements, parse_assignment, requirements_from_args,
    CommandError,
};
use rah::tools::requirement::{RequirementError, ToolRequirement};

fn args(list: &[&str]) -> Vec<String> {
    list.iter().map(|a| a.to_string()).collect()
}

#[test]
fn use_parses_every_tool() {
    let reqs = requirements_from_args(&args(&["node@24", "github:o/r"])).unwrap();

    assert_eq!(reqs.len(), 2);
    assert_eq!(reqs[1].version, "latest");
}

#[test]
fn use_reports_first_bad_tool() {
    assert_eq!(
        requirements_from_args(&args(&["node@24", "@1", "x@"])).err(),
        Some(CommandError::Requirement(RequirementError::EmptyName))
    );
}

#[test]
fn use_needs_a_tool() {
    assert_eq!(requirements_from_args(&Vec::new()).err(), Some(CommandError::NoTools));
}

#[test]
fn exec_tool_overrides_project_tools() {
    let project = vec![ToolRequirement::parse("node@24").unwrap()];

    let chosen = exec_requirements(Some("deno@2"), project).unwrap();
    assert_eq!(chosen.len(), 1);
    assert_eq!(chosen[0].name, "deno");

    let project = vec![ToolRequirement::parse("node@24").unwrap()];
    let chosen = exec_requirements(None, project).unwrap();
    assert_eq!(chosen[0].name, "node");
}

#[test]
fn assignments_split_at_first_equals() {
    assert_eq!(
        parse_assignment("NODE_ENV=dev=1"),
        Ok(("NODE_ENV".to_string(), "dev=1".to_string()))
    );
    assert_eq!(parse_assignment("A="), Ok(("A".to_string(), String::new())));
    assert_eq!(
        parse_assignment("novalue"),
        Err(CommandError::NotAnAssignment("novalue".to_string()))
    );
    assert_eq!(parse_assignment("=x"), Err(CommandError::EmptyKey));
}

#[test]
fn activation_scripts() {
    let bash = activation_script("bash").unwrap();
    assert!(bash.starts_with("_rah_hook() {\n    eval \"$(command rah env --shell bash)\"\n}"));
    assert!(bash.ends_with("\n\n_rah_hook"));

    assert!(activation_script("zsh").unwrap().contains("--shell zsh"));
    assert!(activation_script("fish").unwrap().ends_with("rah env --shell fish | source"));
    assert!(activation_script("pwsh").unwrap().contains("Invoke-Expression"));
    assert_eq!(
        activation_script("cmd"),
        Err(CommandError::UnsupportedShell("cmd".to_string()))
    );
}

#[test]
fn completion_shells() {
    for shell in ["bash", "zsh", "fish", "powershell", "elvish"] {
        assert!(completion_supported(shell));
    }
    assert!(!completion_supported("pwsh"));
}
