use rah::tools::github::{
    archive_format, byte_unit, fallback_release_url, platform_target, release_url, repository,
    retry_with_v_prefix, select_asset, version_from_tag, ArchiveFormat, RepositoryError,
    first_answer_action, fallback_answer_action, ReleaseAction,
};

#[test]
fn splits_owner_and_repository() {
    assert_eq!(
        repository("BurntSushi/ripgrep"),
        Ok(("BurntSushi".to_string(), "ripgrep".to_string()))
    );
}

#[test]
fn refuses_names_without_slash() {
    assert_eq!(repository("ripgrep"), Err(RepositoryError::MissingSlash));
}

#[test]
fn refuses_invalid_repositories() {
    for name in ["/repo", "owner/", "a/b/c"] {
        assert_eq!(
            repository(name),
            Err(RepositoryError::InvalidRepository(name.to_string()))
        );
    }
}

#[test]
fn builds_release_urls() {
    assert_eq!(
        release_url("o", "r", "latest"),
        "https://api.github.com/repos/o/r/releases/latest"
    );
    assert_eq!(
        release_url("o", "r", "v1.2.3"),
        "https://api.github.com/repos/o/r/releases/tags/1.2.3"
    );
    assert_eq!(
        release_url("o", "r", "vv2"),
        "https://api.github.com/repos/o/r/releases/tags/2"
    );
    assert_eq!(
        fallback_release_url("o", "r", "1.2.3"),
        "https://api.github.com/repos/o/r/releases/tags/v1.2.3"
    );
}

#[test]
fn retries_only_tagged_versions_that_were_not_found() {
    assert!(retry_with_v_prefix(true, "1.0"));
    assert!(!retry_with_v_prefix(true, "latest"));
    assert!(!retry_with_v_prefix(false, "1.0"));
}

#[test]
fn version_from_tag_drops_leading_v() {
    assert_eq!(version_from_tag("v14.1.0").version, "14.1.0");
    assert_eq!(version_from_tag("14.1.0").version, "14.1.0");
    assert_eq!(version_from_tag("vvv").version, "");
}

#[test]
fn archive_formats_by_suffix() {
    assert_eq!(archive_format("tool.zip"), Some(ArchiveFormat::Zip));
    assert_eq!(archive_format("tool.tar.gz"), Some(ArchiveFormat::TarGz));
    assert_eq!(archive_format("tool.tgz"), Some(ArchiveFormat::TarGz));
    assert_eq!(archive_format("tool.tar.xz"), None);
    assert_eq!(archive_format(""), None);
}

fn names(list: &[&str]) -> Vec<String> {
    list.iter().map(|n| n.to_string()).collect()
}

#[test]
fn prefers_archive_for_target() {
    let assets = names(&[
        "tool-darwin-arm64.tar.gz",
        "tool-linux-amd64.sha256",
        "tool-linux-amd64.tar.gz",
    ]);

    assert_eq!(select_asset(&assets, "linux-amd64"), Some(2));
}

#[test]
fn falls_back_to_any_archive() {
    let assets = names(&["checksums.txt", "tool-windows-amd64.zip", "tool.tgz"]);

    assert_eq!(select_asset(&assets, "linux-amd64"), Some(1));
}

#[test]
fn no_archive_means_no_asset() {
    assert_eq!(select_asset(&names(&["a.txt", "b.deb"]), "linux-amd64"), None);
}

#[test]
fn platform_targets() {
    assert_eq!(platform_target("macos", "aarch64"), "darwin-arm64");
    assert_eq!(platform_target("macos", "x86_64"), "darwin-amd64");
    assert_eq!(platform_target("linux", "aarch64"), "linux-arm64");
    assert_eq!(platform_target("linux", "x86_64"), "linux-amd64");
    assert_eq!(platform_target("windows", "x86_64"), "windows-amd64");
    assert_eq!(platform_target("windows", "aarch64"), "unknown");
}

#[test]
fn byte_units() {
    assert_eq!(byte_unit(0), (0, "B"));
    assert_eq!(byte_unit(1023), (0, "B"));
    assert_eq!(byte_unit(1024), (1, "KB"));
    assert_eq!(byte_unit(1024 * 1024 - 1), (1, "KB"));
    assert_eq!(byte_unit(1024 * 1024), (2, "MB"));
    assert_eq!(byte_unit(5 * 1024 * 1024 * 1024), (3, "GB"));
    assert_eq!(byte_unit(u64::MAX), (3, "GB"));
}

#[test]
fn missing_tag_is_asked_again_with_prefix() {
    assert_eq!(first_answer_action(true, false, "14.1.0"), ReleaseAction::RetryWithPrefix);
    assert_eq!(first_answer_action(true, false, "latest"), ReleaseAction::Fail);
    assert_eq!(first_answer_action(false, true, "14.1.0"), ReleaseAction::Read);
    assert_eq!(first_answer_action(false, false, "latest"), ReleaseAction::Fail);
}

#[test]
fn prefixed_answer_is_read_or_fails() {
    assert_eq!(fallback_answer_action(true), ReleaseAction::Read);
    assert_eq!(fallback_answer_action(false), ReleaseAction::Fail);
}
