use rah::tools::ToolRequirement;
use rah::config::{find, load_config, tools_to_requirements, ConfigCandidate, RahConfig, Settings, ToolsError};
use rah::string_map::StringMap;
use rah::tools::requirement::RequirementError;

fn candidate(path: &str, is_file: bool) -> ConfigCandidate {
    ConfigCandidate { path: path.to_string(), is_file }
}

#[test]
fn finds_nearest_config() {
    let candidates = vec![
        candidate("/a/b/rah.toml", false),
        candidate("/a/rah.toml", true),
        candidate("/rah.toml", true),
    ];

    assert_eq!(find(&candidates), Some("/a/rah.toml".to_string()));
}

#[test]
fn finds_no_config() {
    assert_eq!(find(&vec![candidate("/rah.toml", false)]), None);
}

fn config() -> RahConfig {
    RahConfig {
        tools: StringMap::new(),
        env: StringMap::new(),
        tasks: Vec::new(),
        settings: Settings::default(),
    }
}

#[test]
fn load_config_without_file_is_none() {
    let r: Result<Option<RahConfig>, String> = load_config(None);
    assert!(matches!(r, Ok(None)));
}

#[test]
fn load_config_passes_result_on() {
    let r: Result<Option<RahConfig>, String> = load_config(Some(Ok(config())));
    assert!(matches!(r, Ok(Some(_))));

    let r: Result<Option<RahConfig>, String> = load_config(Some(Err("bad".to_string())));
    assert!(matches!(r, Err(e) if e == "bad"));
}

#[test]
fn settings_default_is_not_experimental() {
    assert!(!Settings::default().experimental);
}

#[test]
fn tools_become_requirements() {
    let entries = vec![
        ("github:o/r".to_string(), Some("1.0".to_string())),
        ("node".to_string(), Some("24".to_string())),
    ];

    let reqs = tools_to_requirements(&entries).unwrap();

    assert_eq!(reqs.len(), 2);
    assert_eq!(reqs[0].backend.as_deref(), Some("github"));
    assert_eq!(reqs[0].name, "o/r");
    assert_eq!(reqs[0].version, "1.0");
    assert_eq!(reqs[1].to_string(), "node@24");
}

#[test]
fn tool_versions_must_be_strings() {
    let entries = vec![
        ("node".to_string(), Some("24".to_string())),
        ("deno".to_string(), None),
    ];

    assert_eq!(
        tools_to_requirements(&entries).err(),
        Some(ToolsError::VersionNotString("deno".to_string()))
    );
}

#[test]
fn tool_entries_must_parse() {
    let entries = vec![("node".to_string(), Some(String::new()))];

    assert_eq!(
        tools_to_requirements(&entries).err(),
        Some(ToolsError::Requirement(RequirementError::EmptyVersion))
    );
}

#[test]
fn recorded_tool_reads_back() {
    for input in ["github:o/r@1.0", "node@24", "ripgrep", "a:b:c@x@y"] {
        let r = ToolRequirement::parse(input).unwrap();
        let entries = vec![(r.config_name(), Some(r.version.clone()))];

        assert_eq!(tools_to_requirements(&entries).unwrap(), vec![r]);
    }
}
