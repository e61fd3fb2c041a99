//! The decisions of the GitHub backend: which repository a requirement names,
//! which release it asks for, which asset to download and how to unpack it.

use vstd::prelude::*;

use super::version::ToolVersion;
use crate::text::{
    contains_str, ends_with, lemma_split_once_concat, lemma_split_once_parts, split_once, split_once_char,
    str_contains, str_ends_with, str_eq, str_has_char, trim_start, trim_start_char,
};

verus! {

/// Why a requirement does not name a GitHub repository.
#[derive(Debug, Clone, PartialEq, Eq)]
pub enum RepositoryError {
    /// The name has no `/`: GitHub tools are written `github:owner/repo`.
    MissingSlash,
    /// The owner or repository is empty, or the repository holds a `/`; holds the name.
    InvalidRepository(String),
}

/// The owner and repository a tool name gives, if it is `owner/repo`.
pub open spec fn repository_of(name: Seq<char>) -> Option<(Seq<char>, Seq<char>)> {
    match split_once(name, '/') {
        Some((owner, repo)) => if owner.len() == 0 || repo.len() == 0 || repo.contains('/') {
            None
        } else {
            Some((owner, repo))
        },
        None => None,
    }
}

/// The owner and repository of a `owner/repo` tool name.
pub fn repository(name: &str) -> (r: Result<(String, String), RepositoryError>)
    ensures
        match r {
            Ok((owner, repo)) => repository_of(name@) == Some((owner@, repo@)),
            Err(RepositoryError::MissingSlash) => split_once(name@, '/') is None,
            Err(RepositoryError::InvalidRepository(n)) => split_once(name@, '/') is Some
                && repository_of(name@) is None && n@ == name@,
        },
{
    match split_once_char(name, '/') {
        None => Err(RepositoryError::MissingSlash),
        Some((owner, repo)) => {
            if owner.unicode_len() == 0 || repo.unicode_len() == 0 || str_has_char(repo.as_str(), '/') {
                Err(RepositoryError::InvalidRepository(name.to_owned()))
            } else {
                Ok((owner, repo))
            }
        },
    }
}

/// The API address of a repository.
pub open spec fn repository_api(owner: Seq<char>, repo: Seq<char>) -> Seq<char> {
    "https://api.github.com/repos/"@ + owner + "/"@ + repo
}

/// The release a version asks for: the latest release for `latest`, otherwise the
/// release tagged with the version without its leading `v`s.
pub open spec fn release_address(owner: Seq<char>, repo: Seq<char>, version: Seq<char>) -> Seq<char> {
    if version == "latest"@ {
        repository_api(owner, repo) + "/releases/latest"@
    } else {
        repository_api(owner, repo) + "/releases/tags/"@ + trim_start(version, 'v')
    }
}

/// The second try for a tagged release: the tag with a `v` before the version.
pub open spec fn fallback_address(owner: Seq<char>, repo: Seq<char>, version: Seq<char>) -> Seq<char> {
    repository_api(owner, repo) + "/releases/tags/v"@ + trim_start(version, 'v')
}

/// The API address of the release a version asks for.
pub fn release_url(owner: &str, repo: &str, version: &str) -> (url: String)
    ensures
        url@ == release_address(owner@, repo@, version@),
{
    let mut url = String::from_str("https://api.github.com/repos/");
    url.append(owner);
    url.append("/");
    url.append(repo);
    if str_eq(version, "latest") {
        url.append("/releases/latest");
    } else {
        url.append("/releases/tags/");
        url.append(trim_start_char(version, 'v').as_str());
    }
    url
}

/// The API address to try when a tagged release is not found: the `v`-prefixed tag.
pub fn fallback_release_url(owner: &str, repo: &str, version: &str) -> (url: String)
    ensures
        url@ == fallback_address(owner@, repo@, version@),
{
    let mut url = String::from_str("https://api.github.com/repos/");
    url.append(owner);
    url.append("/");
    url.append(repo);
    url.append("/releases/tags/v");
    url.append(trim_start_char(version, 'v').as_str());
    url
}

/// Whether a release lookup that was not found is tried again with a `v`-prefixed
/// tag: only for a version other than `latest`.
pub fn retry_with_v_prefix(not_found: bool, version: &str) -> (b: bool)
    ensures
        b == (not_found && version@ != "latest"@),
{
    not_found && !str_eq(version, "latest")
}

/// What to do with the answer to a release lookup.
#[derive(Debug, Clone, Copy, PartialEq, Eq, Structural)]
pub enum ReleaseAction {
    /// Read the release from this answer.
    Read,
    /// Ask again for the `v`-prefixed tag.
    RetryWithPrefix,
    /// Fail with the answer's status.
    Fail,
}

/// What to do with the first answer: a tagged release that was not found is asked
/// for again with a `v` prefix; otherwise a successful answer is read and any
/// other fails.
pub fn first_answer_action(not_found: bool, success: bool, version: &str) -> (a: ReleaseAction)
    ensures
        a == (if not_found && version@ != "latest"@ {
            ReleaseAction::RetryWithPrefix
        } else if success {
            ReleaseAction::Read
        } else {
            ReleaseAction::Fail
        }),
{
    if retry_with_v_prefix(not_found, version) {
        ReleaseAction::RetryWithPrefix
    } else if success {
        ReleaseAction::Read
    } else {
        ReleaseAction::Fail
    }
}

/// What to do with the answer to the `v`-prefixed lookup: read it when it
/// succeeded, fail otherwise; it is never retried.
pub fn fallback_answer_action(success: bool) -> (a: ReleaseAction)
    ensures
        a == (if success { ReleaseAction::Read } else { ReleaseAction::Fail }),
{
    if success {
        ReleaseAction::Read
    } else {
        ReleaseAction::Fail
    }
}

/// The version a release tag names: the tag without its leading `v`s.
pub fn version_from_tag(tag: &str) -> (v: ToolVersion)
    ensures
        v.version@ == trim_start(tag@, 'v'),
{
    ToolVersion { version: trim_start_char(tag, 'v') }
}

/// The archive formats Rah can unpack.
#[derive(Debug, Clone, Copy, PartialEq, Eq, Structural)]
pub enum ArchiveFormat {
    Zip,
    TarGz,
}

/// The format an archive's name shows: `.zip`, or `.tar.gz`/`.tgz`.
pub open spec fn format_of(name: Seq<char>) -> Option<ArchiveFormat> {
    if ends_with(name, ".zip"@) {
        Some(ArchiveFormat::Zip)
    } else if ends_with(name, ".tar.gz"@) || ends_with(name, ".tgz"@) {
        Some(ArchiveFormat::TarGz)
    } else {
        None
    }
}

/// The format of an archive, by its name.
pub fn archive_format(name: &str) -> (f: Option<ArchiveFormat>)
    ensures
        f == format_of(name@),
{
    if str_ends_with(name, ".zip") {
        Some(ArchiveFormat::Zip)
    } else if str_ends_with(name, ".tar.gz") || str_ends_with(name, ".tgz") {
        Some(ArchiveFormat::TarGz)
    } else {
        None
    }
}

/// A release asset Rah can unpack.
pub open spec fn is_archive(name: Seq<char>) -> bool {
    ends_with(name, ".tar.gz"@) || ends_with(name, ".tgz"@) || ends_with(name, ".zip"@)
}

/// The asset names, as character sequences.
pub open spec fn names_view(names: Seq<String>) -> Seq<Seq<char>> {
    names.map_values(|n: String| n@)
}

/// `i` is the first asset that satisfies `p`.
pub open spec fn first_where(names: Seq<Seq<char>>, p: spec_fn(Seq<char>) -> bool, i: int) -> bool {
    &&& 0 <= i < names.len()
    &&& p(names[i])
    &&& forall|j: int| 0 <= j < i ==> !p(#[trigger] names[j])
}

/// An archive built for the target platform.
pub open spec fn for_target(target: Seq<char>) -> spec_fn(Seq<char>) -> bool {
    |n: Seq<char>| contains_str(n, target) && is_archive(n)
}

/// The asset to download: the first archive whose name holds the platform target,
/// or else the first archive of any platform.
pub fn select_asset(names: &Vec<String>, target: &str) -> (r: Option<usize>)
    ensures
        match r {
            Some(i) => first_where(names_view(names@), for_target(target@), i as int) || (
                (forall|j: int| 0 <= j < names@.len() ==> !for_target(target@)(#[trigger] names_view(names@)[j]))
                && first_where(names_view(names@), |n: Seq<char>| is_archive(n), i as int)),
            None => forall|j: int| 0 <= j < names@.len() ==> !is_archive(#[trigger] names_view(names@)[j]),
        },
{
    let ghost nv = names_view(names@);
    let mut i: usize = 0;
    while i < names.len()
        invariant
            nv == names_view(names@),
            i <= names.len(),
            forall|j: int| 0 <= j < i ==> !for_target(target@)(#[trigger] nv[j]),
        decreases names.len() - i,
    {
        let n = names[i].as_str();
        if str_contains(n, target) && (str_ends_with(n, ".tar.gz") || str_ends_with(n, ".tgz") || str_ends_with(n, ".zip")) {
            assert(first_where(nv, for_target(target@), i as int));
            return Some(i);
        }
        i = i + 1;
    }
    let mut k: usize = 0;
    while k < names.len()
        invariant
            nv == names_view(names@),
            k <= names.len(),
            forall|j: int| 0 <= j < names@.len() ==> !for_target(target@)(#[trigger] nv[j]),
            forall|j: int| 0 <= j < k ==> !is_archive(#[trigger] nv[j]),
        decreases names.len() - k,
    {
        let n = names[k].as_str();
        if str_ends_with(n, ".tar.gz") || str_ends_with(n, ".tgz") || str_ends_with(n, ".zip") {
            assert(first_where(nv, |n: Seq<char>| is_archive(n), k as int));
            return Some(k);
        }
        k = k + 1;
    }
    None
}

/// The platform part of asset names for an operating system and architecture
/// (as `std::env::consts::OS` and `ARCH` give them).
pub open spec fn target_for(os: Seq<char>, arch: Seq<char>) -> Seq<char> {
    if os == "macos"@ && arch == "aarch64"@ {
        "darwin-arm64"@
    } else if os == "macos"@ && arch == "x86_64"@ {
        "darwin-amd64"@
    } else if os == "linux"@ && arch == "aarch64"@ {
        "linux-arm64"@
    } else if os == "linux"@ && arch == "x86_64"@ {
        "linux-amd64"@
    } else if os == "windows"@ && arch == "x86_64"@ {
        "windows-amd64"@
    } else {
        "unknown"@
    }
}

/// The platform part of asset names for an operating system and architecture.
pub fn platform_target(os: &str, arch: &str) -> (t: &'static str)
    ensures
        t@ == target_for(os@, arch@),
{
    if str_eq(os, "macos") && str_eq(arch, "aarch64") {
        "darwin-arm64"
    } else if str_eq(os, "macos") && str_eq(arch, "x86_64") {
        "darwin-amd64"
    } else if str_eq(os, "linux") && str_eq(arch, "aarch64") {
        "linux-arm64"
    } else if str_eq(os, "linux") && str_eq(arch, "x86_64") {
        "linux-amd64"
    } else if str_eq(os, "windows") && str_eq(arch, "x86_64") {
        "windows-amd64"
    } else {
        "unknown"
    }
}

/// The unit a byte count is shown in: 0 for B, 1 for KB, 2 for MB, 3 for GB, the
/// largest whose size the count reaches.
pub open spec fn unit_for(bytes: nat) -> nat {
    if bytes >= 1024 * 1024 * 1024 {
        3
    } else if bytes >= 1024 * 1024 {
        2
    } else if bytes >= 1024 {
        1
    } else {
        0
    }
}

/// The unit names, by unit.
pub open spec fn unit_name(unit: nat) -> Seq<char> {
    if unit == 0 {
        "B"@
    } else if unit == 1 {
        "KB"@
    } else if unit == 2 {
        "MB"@
    } else {
        "GB"@
    }
}

/// The unit a byte count is shown in, and its name: the count is divided by 1024
/// while it is at least 1024, at most three times.
pub fn byte_unit(bytes: u64) -> (r: (usize, &'static str))
    ensures
        r.0 == unit_for(bytes as nat),
        r.1@ == unit_name(r.0 as nat),
{
    let mut size: u64 = bytes;
    let mut unit: usize = 0;
    while size >= 1024 && unit < 3
        invariant
            unit <= 3,
            unit == 0 ==> size == bytes,
            unit == 1 ==> size == bytes / 1024,
            unit == 2 ==> size == bytes / 1048576,
            unit == 3 ==> size == bytes / 1073741824,
            unit >= 1 ==> bytes >= 1024,
            unit >= 2 ==> bytes >= 1048576,
            unit >= 3 ==> bytes >= 1073741824,
        decreases 3 - unit,
    {
        proof {
            assert(bytes / 1024 / 1024 == bytes / 1048576) by (nonlinear_arith);
            assert(bytes / 1048576 / 1024 == bytes / 1073741824) by (nonlinear_arith);
            assert(bytes / 1024 >= 1024 ==> bytes >= 1048576) by (nonlinear_arith);
            assert(bytes / 1048576 >= 1024 ==> bytes >= 1073741824) by (nonlinear_arith);
        }
        size = size / 1024;
        unit = unit + 1;
    }
    proof {
        assert(bytes < 1048576 ==> bytes / 1024 < 1024) by (nonlinear_arith);
        assert(bytes < 1073741824 ==> bytes / 1048576 < 1024) by (nonlinear_arith);
        assert(bytes >= 1048576 ==> bytes / 1024 >= 1024) by (nonlinear_arith);
        assert(bytes >= 1073741824 ==> bytes / 1048576 >= 1024) by (nonlinear_arith);
    }
    let name: &'static str = if unit == 0 {
        "B"
    } else if unit == 1 {
        "KB"
    } else if unit == 2 {
        "MB"
    } else {
        "GB"
    };
    (unit, name)
}

/// A tool name is a GitHub repository exactly when it is an owner and a
/// repository, both non-empty and without `/`, joined by one `/`: such a name
/// always gives back its owner and repository, and any name that gives an owner
/// and repository is them joined.
pub proof fn lemma_repository_names(name: Seq<char>, owner: Seq<char>, repo: Seq<char>)
    ensures
        (owner.len() > 0 && !owner.contains('/') && repo.len() > 0 && !repo.contains('/')) ==> repository_of(
            owner + seq!['/'] + repo,
        ) == Some((owner, repo)),
        repository_of(name) == Some((owner, repo)) ==> name == owner + seq!['/'] + repo && owner.len() > 0
            && !owner.contains('/') && repo.len() > 0 && !repo.contains('/'),
{
    if owner.len() > 0 && !owner.contains('/') && repo.len() > 0 && !repo.contains('/') {
        lemma_split_once_concat(owner, '/', repo);
    }
    if repository_of(name) == Some((owner, repo)) {
        lemma_split_once_parts(name, '/');
    }
}

/// The retry address asks for the tag with exactly one leading `v`: a version
/// with a `v` more gives the same address, and a version that does not start
/// with `v` is asked for as `v` followed by the version.
pub proof fn lemma_fallback_address_one_v(owner: Seq<char>, repo: Seq<char>, version: Seq<char>)
    ensures
        fallback_address(owner, repo, seq!['v'] + version) == fallback_address(owner, repo, version),
        (version.len() == 0 || version[0] != 'v') ==> fallback_address(owner, repo, version)
            == "https://api.github.com/repos/"@ + owner + "/"@ + repo + "/releases/tags/v"@ + version,
{
    let w = seq!['v'] + version;
    assert(w.drop_first() =~= version);
    assert(trim_start(w, 'v') == trim_start(version, 'v'));
}

/// The tagged release asks for the version without its leading `v`s: a version
/// with a `v` more gives the same address, and a version that does not start with
/// `v` (and is not `latest`) is asked for as it is.
pub proof fn lemma_release_address_tag(owner: Seq<char>, repo: Seq<char>, version: Seq<char>)
    requires
        version != "latest"@,
    ensures
        release_address(owner, repo, seq!['v'] + version) == release_address(owner, repo, version),
        (version.len() == 0 || version[0] != 'v') ==> release_address(owner, repo, version)
            == "https://api.github.com/repos/"@ + owner + "/"@ + repo + "/releases/tags/"@ + version,
{
    let w = seq!['v'] + version;
    assert(w.drop_first() =~= version);
    assert(trim_start(w, 'v') == trim_start(version, 'v'));
    reveal_strlit("latest");
    assert(w[0] != "latest"@[0]);
}

/// An asset is taken as an archive for the target exactly when its name holds the
/// target and ends in `.tar.gz`, `.tgz` or `.zip`, that is when its name holds the
/// target and Rah can unpack it; an asset of any platform is an archive exactly
/// when Rah can unpack it.
pub proof fn lemma_asset_choice_predicates(target: Seq<char>, name: Seq<char>)
    ensures
        for_target(target)(name) <==> contains_str(name, target) && (ends_with(name, ".tar.gz"@) || ends_with(
            name,
            ".tgz"@,
        ) || ends_with(name, ".zip"@)),
        for_target(target)(name) <==> contains_str(name, target) && format_of(name) is Some,
        is_archive(name) <==> format_of(name) is Some,
{
}

} // verus!
