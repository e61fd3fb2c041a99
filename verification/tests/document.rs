use rah::config::ToolsError;
use rah::document::{
    add_tool_to_document, add_tool_to_table, print_document, project_tools, DocumentError, ProjectToolsError,
};

fn add_and_print(contents: &str, name: &str, version: &str) -> String {
    print_document(&add_tool_to_document(contents, name, version).unwrap()).unwrap()
}

#[test]
fn adds_tool_to_empty_document() {
    let out = add_and_print("", "node", "24");

    assert_eq!(out.trim(), "[tools]\nnode = \"24\"");
}

#[test]
fn blank_document_counts_as_empty() {
    assert_eq!(add_and_print("  \n\t", "node", "24"), add_and_print("", "node", "24"));
}

#[test]
fn adds_tool_and_keeps_the_rest() {
    let out = add_and_print("[tools]\nrg = \"14\"\n\n[env]\nA = \"x\"\n", "github:o/r", "1.0");

    let tools = project_tools(&out).unwrap();
    let written: Vec<String> = tools.iter().map(|t| t.to_string()).collect();
    assert_eq!(written, vec!["github:o/r@1.0".to_string(), "rg@14".to_string()]);
    assert!(out.contains("A = \"x\""));
}

#[test]
fn adds_tool_to_the_table_in_place() {
    let mut document: toml::Table = toml::from_str("[tools]\nrg = \"14\"\n\n[env]\nA = \"x\"\n").unwrap();

    add_tool_to_table(&mut document, "node", "24").unwrap();

    let tools = document["tools"].as_table().unwrap();
    assert_eq!(tools["node"].as_str(), Some("24"));
    assert_eq!(tools["rg"].as_str(), Some("14"));
    assert_eq!(tools.len(), 2);
    assert_eq!(document["env"]["A"].as_str(), Some("x"));
    assert_eq!(document.len(), 2);
}

#[test]
fn adding_makes_the_tools_table() {
    let mut document: toml::Table = toml::from_str("x = 1\n").unwrap();

    add_tool_to_table(&mut document, "node", "24").unwrap();

    assert_eq!(document["tools"]["node"].as_str(), Some("24"));
    assert_eq!(document["x"].as_integer(), Some(1));
}

#[test]
fn replaces_existing_version() {
    let out = add_and_print("[tools]\nnode = \"20\"\n", "node", "24");

    let tools = project_tools(&out).unwrap();
    assert_eq!(tools.len(), 1);
    assert_eq!(tools[0].version, "24");
}

#[test]
fn refuses_tools_that_is_not_a_table() {
    assert!(matches!(
        add_tool_to_document("tools = 1\n", "node", "24"),
        Err(DocumentError::ToolsNotATable)
    ));
}

#[test]
fn refused_edit_leaves_the_table() {
    let mut document: toml::Table = toml::from_str("tools = 1\n").unwrap();

    assert_eq!(add_tool_to_table(&mut document, "node", "24"), Err(DocumentError::ToolsNotATable));
    assert_eq!(document, toml::from_str::<toml::Table>("tools = 1\n").unwrap());
}

#[test]
fn refuses_invalid_toml() {
    assert!(matches!(
        add_tool_to_document("[tools\n", "node", "24"),
        Err(DocumentError::Parse(_))
    ));
    assert!(matches!(project_tools("= nope"), Err(ProjectToolsError::Parse(_))));
}

#[test]
fn project_tools_in_key_order() {
    let tools = project_tools("[tools]\nzig = \"0.13\"\nbun = \"1\"\n").unwrap();

    assert_eq!(tools.len(), 2);
    assert_eq!(tools[0].name, "bun");
    assert_eq!(tools[1].name, "zig");
}

#[test]
fn project_without_tools_table_has_none() {
    assert!(project_tools("").unwrap().is_empty());
    assert!(project_tools("tools = \"x\"\n").unwrap().is_empty());
}

#[test]
fn project_tool_versions_must_be_strings() {
    assert_eq!(
        project_tools("[tools]\nnode = 24\n"),
        Err(ProjectToolsError::Tools(ToolsError::VersionNotString("node".to_string())))
    );
}

#[test]
fn recording_in_turn_keeps_the_last_version() {
    let mut document: toml::Table = toml::from_str("[tools]\nrg = \"13\"\n").unwrap();

    for (name, version) in [("node", "20"), ("zig", "0.13"), ("node", "24")] {
        add_tool_to_table(&mut document, name, version).unwrap();
    }

    let tools = project_tools(&print_document(&document).unwrap()).unwrap();
    let written: Vec<String> = tools.iter().map(|t| t.to_string()).collect();
    assert_eq!(written, vec!["node@24", "rg@13", "zig@0.13"]);
}
