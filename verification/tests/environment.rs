use rah::string_map::StringMap;
use rah::tools::environment::{
    apply_project_env, assemble_environment, fish_quote, join_strings, powershell_quote, register_executables,
    render_fish_environment, render_posix_environment, render_powershell_environment, render_shell_environment,
    shell_quote, sorted_variables, EnvironmentError, InstalledTool, ResolvedEnvironment,
};

fn map(entries: &[(&str, &str)]) -> StringMap {
    let mut m = StringMap::new();
    for (k, v) in entries {
        m.insert(k.to_string(), v.to_string());
    }
    m
}

fn pairs(entries: &[(&str, &str)]) -> Vec<(String, String)> {
    entries.iter().map(|(k, v)| (k.to_string(), v.to_string())).collect()
}

#[test]
fn quotes_for_posix_shells() {
    assert_eq!(shell_quote(""), "''");
    assert_eq!(shell_quote("plain"), "'plain'");
    assert_eq!(shell_quote("it's"), "'it'\\''s'");
}

#[test]
fn quotes_for_fish() {
    assert_eq!(fish_quote(""), "''");
    assert_eq!(fish_quote("it's"), "'it\\'s'");
}

#[test]
fn quotes_for_powershell() {
    assert_eq!(powershell_quote(""), "''");
    assert_eq!(powershell_quote("it's"), "'it''s'");
}

#[test]
fn sorts_variables_by_key() {
    let vars = map(&[("b", "2"), ("a", "1"), ("c", "3"), ("B", "0")]);

    assert_eq!(sorted_variables(&vars), pairs(&[("B", "0"), ("a", "1"), ("b", "2"), ("c", "3")]));
}

#[test]
fn insert_replaces_earlier_value() {
    let mut vars = map(&[("a", "1")]);
    vars.insert("a".to_string(), "2".to_string());

    assert_eq!(vars.len(), 1);
    assert_eq!(vars.get("a").map(String::as_str), Some("2"));
    assert_eq!(vars.get("b"), None);
}

#[test]
fn renders_posix_exports_in_key_order() {
    let mut env = ResolvedEnvironment::new();
    env.variables = map(&[("PATH", "/bin"), ("NODE_ENV", "dev's")]);

    assert_eq!(
        render_posix_environment(&env),
        "export NODE_ENV='dev'\\''s'\nexport PATH='/bin'\n"
    );
}

#[test]
fn renders_fish_and_powershell() {
    let mut env = ResolvedEnvironment::new();
    env.variables = map(&[("A", "x")]);

    assert_eq!(render_fish_environment(&env), "set -gx A 'x'\n");
    assert_eq!(render_powershell_environment(&env), "$env:A = 'x'\n");
}

#[test]
fn renders_by_shell_name() {
    let mut env = ResolvedEnvironment::new();
    env.variables = map(&[("A", "x")]);

    assert_eq!(render_shell_environment(&env, "zsh").unwrap(), "export A='x'\n");
    assert_eq!(render_shell_environment(&env, "bash").unwrap(), "export A='x'\n");
    assert_eq!(render_shell_environment(&env, "fish").unwrap(), "set -gx A 'x'\n");
    assert_eq!(render_shell_environment(&env, "pwsh").unwrap(), "$env:A = 'x'\n");
    assert_eq!(render_shell_environment(&env, "powershell").unwrap(), "$env:A = 'x'\n");
    assert_eq!(
        render_shell_environment(&env, "tcsh"),
        Err(EnvironmentError::UnsupportedShell("tcsh".to_string()))
    );
}

#[test]
fn empty_environment_renders_nothing() {
    assert_eq!(render_posix_environment(&ResolvedEnvironment::new()), "");
}

#[test]
fn first_registered_executable_wins() {
    let mut executables = StringMap::new();
    register_executables(&mut executables, &pairs(&[("rg", "/one/rg"), ("fd", "/one/fd")]));
    register_executables(&mut executables, &pairs(&[("rg", "/two/rg"), ("bat", "/two/bat")]));

    assert_eq!(
        executables.sorted_entries(),
        pairs(&[("bat", "/two/bat"), ("fd", "/one/fd"), ("rg", "/one/rg")])
    );
}

#[test]
fn joins_strings() {
    let parts = vec!["a".to_string(), "b".to_string(), "c".to_string()];

    assert_eq!(join_strings(&parts, ":"), "a:b:c");
    assert_eq!(join_strings(&Vec::new(), ":"), "");
}

#[test]
fn project_env_overrides_other_variables() {
    let mut vars = map(&[("PATH", "/tools"), ("A", "1")]);
    apply_project_env(&mut vars, &map(&[("A", "2"), ("B", "3")]));

    assert_eq!(vars.sorted_entries(), pairs(&[("A", "2"), ("B", "3"), ("PATH", "/tools")]));
}

fn tool(bin: &str, executables: &[(&str, &str)]) -> InstalledTool {
    InstalledTool { bin: bin.to_string(), executables: pairs(executables) }
}

#[test]
fn assembles_path_with_tools_first() {
    let tools = vec![
        tool("/rah/rg/bin", &[("rg", "/rah/rg/bin/rg")]),
        tool("/rah/fd/bin", &[("fd", "/rah/fd/bin/fd"), ("rg", "/rah/fd/bin/rg")]),
    ];

    let env = assemble_environment(&tools, ":", "/usr/bin", &StringMap::new());

    assert_eq!(env.variables.sorted_entries(), pairs(&[("PATH", "/rah/rg/bin:/rah/fd/bin:/usr/bin")]));
    assert_eq!(
        env.executables.sorted_entries(),
        pairs(&[("fd", "/rah/fd/bin/fd"), ("rg", "/rah/rg/bin/rg")])
    );
}

#[test]
fn assembles_path_without_inherited_path() {
    let tools = vec![tool("/rah/rg/bin", &[])];

    let env = assemble_environment(&tools, ";", "", &StringMap::new());

    assert_eq!(env.variables.get("PATH").map(String::as_str), Some("/rah/rg/bin"));
}

#[test]
fn no_tools_means_no_path_but_project_env() {
    let env = assemble_environment(&Vec::new(), ":", "/usr/bin", &map(&[("NODE_ENV", "test")]));

    assert_eq!(env.variables.sorted_entries(), pairs(&[("NODE_ENV", "test")]));
    assert_eq!(env.executables.len(), 0);
}

#[test]
fn project_env_can_override_path() {
    let tools = vec![tool("/rah/rg/bin", &[])];

    let env = assemble_environment(&tools, ":", "/usr/bin", &map(&[("PATH", "/only")]));

    assert_eq!(env.variables.get("PATH").map(String::as_str), Some("/only"));
}

#[test]
fn rendering_does_not_depend_on_insertion_order() {
    let mut one = ResolvedEnvironment::new();
    one.variables = map(&[("Z", "1"), ("A", "2"), ("M", "3")]);

    let mut two = ResolvedEnvironment::default();
    two.variables = map(&[("M", "3"), ("Z", "1"), ("A", "2")]);

    assert_eq!(render_posix_environment(&one), render_posix_environment(&two));
    assert_eq!(render_posix_environment(&one), "export A='2'\nexport M='3'\nexport Z='1'\n");
}
