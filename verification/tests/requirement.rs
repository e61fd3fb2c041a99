use rah::tools::requirement::{RequirementError, ToolRequirement};
use rah::tools::ToolVersion;

fn req(input: &str) -> ToolRequirement {
    ToolRequirement::parse(input).unwrap()
}

#[test]
fn parses_name_and_version() {
    let r = req("node@24");

    assert_eq!(r.backend, None);
    assert_eq!(r.name, "node");
    assert_eq!(r.version, "24");
}

#[test]
fn version_defaults_to_latest() {
    let r = req("ripgrep");

    assert_eq!(r.name, "ripgrep");
    assert_eq!(r.version, "latest");
}

#[test]
fn parses_backend_name_and_version() {
    let r = req("github:BurntSushi/ripgrep@14.1.0");

    assert_eq!(r.backend.as_deref(), Some("github"));
    assert_eq!(r.name, "BurntSushi/ripgrep");
    assert_eq!(r.version, "14.1.0");
}

#[test]
fn splits_at_first_at_and_first_colon() {
    let r = req("a:b:c@1@2");

    assert_eq!(r.backend.as_deref(), Some("a"));
    assert_eq!(r.name, "b:c");
    assert_eq!(r.version, "1@2");
}

#[test]
fn refuses_empty_name() {
    assert_eq!(ToolRequirement::parse("@1"), Err(RequirementError::EmptyName));
    assert_eq!(ToolRequirement::parse(""), Err(RequirementError::EmptyName));
}

#[test]
fn refuses_empty_version() {
    assert_eq!(ToolRequirement::parse("node@"), Err(RequirementError::EmptyVersion));
}

#[test]
fn refuses_empty_backend_or_name() {
    assert_eq!(
        ToolRequirement::parse(":node@1"),
        Err(RequirementError::InvalidBackend(":node".to_string()))
    );
    assert_eq!(
        ToolRequirement::parse("github:@1"),
        Err(RequirementError::InvalidBackend("github:".to_string()))
    );
}

#[test]
fn writes_requirements_back() {
    assert_eq!(req("github:owner/repo@v1").to_string(), "github:owner/repo@v1");
    assert_eq!(req("node@24").to_string(), "node@24");
    assert_eq!(req("node").to_string(), "node@latest");
}

#[test]
fn written_form_parses_back_to_the_same_requirement() {
    for input in ["node@24", "github:a/b@1.0", "x:y:z@v@w", "tool"] {
        let r = req(input);
        assert_eq!(req(&r.to_string()), r);
    }
}

#[test]
fn config_name_drops_the_version() {
    assert_eq!(req("github:owner/repo@1").config_name(), "github:owner/repo");
    assert_eq!(req("node@24").config_name(), "node");
}

#[test]
fn tool_version_keeps_its_text() {
    let v = ToolVersion::new("14.1.0");

    assert_eq!(v.version, "14.1.0");
    assert_eq!(v.to_string(), "14.1.0");
}
