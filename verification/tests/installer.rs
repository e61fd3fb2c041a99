use rah::tools::backend::{BackendKind, ToolBackend};
use rah::tools::installer::{is_metadata, plan_normalization, InstallError, ToolInstaller};
use rah::tools::registry::{RegistryError, ToolRegistry};
use rah::tools::scope::{InstallScope, ScopeError};
use rah::tools::ToolRequirement;

#[test]
fn recognises_metadata_files() {
    for name in ["README", "readme.md", "License", "LICENSE.txt", "copying", "COPYING.LESSER"] {
        assert!(is_metadata(name), "{name}");
    }
    for name in ["rg", "readme2", "licenses", "my-readme.md", ""] {
        assert!(!is_metadata(name), "{name}");
    }
}

fn names(list: &[Option<&str>]) -> Vec<Option<String>> {
    list.iter().map(|n| n.map(str::to_string)).collect()
}

#[test]
fn plans_copies_of_executables() {
    let plan = plan_normalization(&names(&[Some("rg"), Some("README.md"), Some("rg.1")]));

    assert_eq!(plan.copies, vec![0, 2]);
    assert_eq!(plan.error, None);
}

#[test]
fn empty_archive_is_an_error() {
    let plan = plan_normalization(&Vec::new());

    assert!(plan.copies.is_empty());
    assert_eq!(plan.error, Some(InstallError::NoFiles));
}

#[test]
fn invalid_name_stops_after_earlier_copies() {
    let plan = plan_normalization(&names(&[Some("a"), None, Some("b")]));

    assert_eq!(plan.copies, vec![0]);
    assert_eq!(plan.error, Some(InstallError::InvalidFileName));
}

#[test]
fn registry_resolves_named_backend() {
    let registry = ToolRegistry::new();

    let r = ToolRequirement::parse("github:o/r").unwrap();
    assert_eq!(registry.resolve_backend(&r), Ok(BackendKind::GitHub));

    let r = ToolRequirement::parse("npm:left-pad").unwrap();
    assert_eq!(
        registry.resolve_backend(&r),
        Err(RegistryError::UnknownBackend("npm".to_string()))
    );
}

#[test]
fn registry_needs_a_supporting_backend() {
    let registry = ToolInstaller::new().registry;

    let r = ToolRequirement::parse("node@24").unwrap();
    assert_eq!(registry.resolve_backend(&r), Err(RegistryError::NoBackend));
}

#[test]
fn github_backend_name_and_support() {
    assert_eq!(BackendKind::GitHub.name(), "github");
    assert!(BackendKind::GitHub.supports(&ToolRequirement::parse("github:o/r").unwrap()));
    assert!(!BackendKind::GitHub.supports(&ToolRequirement::parse("o/r").unwrap()));
}

#[test]
fn install_scope_roots() {
    assert_eq!(
        InstallScope::Project.root(Some("/home/me".to_string())),
        Err(ScopeError::ProjectRootUnsupported)
    );
    assert_eq!(InstallScope::Global.root(None), Err(ScopeError::NoHomeDirectory));
    assert_eq!(
        InstallScope::Global.root(Some("/home/me".to_string())),
        Ok(vec![
            "/home/me".to_string(),
            ".local".to_string(),
            "share".to_string(),
            "rah".to_string()
        ])
    );
}

#[test]
fn install_path_under_home() {
    let parts = rah::tools::scope::install_path(Some("/home/u".to_string()), "ripgrep", "14.1.0").unwrap();
    assert_eq!(parts, vec!["/home/u", ".local", "share", "rah", "installs", "ripgrep", "14.1.0"]);
    assert_eq!(
        rah::tools::scope::install_path(None, "ripgrep", "14.1.0"),
        Err(ScopeError::NoHomeDirectory)
    );
}

#[test]
fn existing_installation_is_used() {
    assert_eq!(rah::tools::installer::install_step(true), rah::tools::installer::InstallStep::UseExisting);
    assert_eq!(rah::tools::installer::install_step(false), rah::tools::installer::InstallStep::Install);
}
