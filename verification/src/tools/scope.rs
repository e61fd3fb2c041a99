//! Where tools are installed.

use vstd::prelude::*;

verus! {

/// Whether a tool is installed for the project or for the user.
#[derive(Debug, Clone, Copy, PartialEq, Eq, Structural)]
pub enum InstallScope {
    Project,
    Global,
}

/// Why an installation root is not known.
#[derive(Debug, Clone, Copy, PartialEq, Eq, Structural)]
pub enum ScopeError {
    /// Project installation roots do not exist yet.
    ProjectRootUnsupported,
    /// The home directory could not be determined.
    NoHomeDirectory,
}

/// The path components of the global installation root under a home directory.
pub open spec fn global_root(home: Seq<char>) -> Seq<Seq<char>> {
    seq![home, ".local"@, "share"@, "rah"@]
}

impl InstallScope {
    /// The installation root, as the path components to join in order:
    /// `<home>/.local/share/rah` for the global scope.
    pub fn root(self, home: Option<String>) -> (r: Result<Vec<String>, ScopeError>)
        ensures
            match self {
                InstallScope::Project => r == Err::<Vec<String>, ScopeError>(ScopeError::ProjectRootUnsupported),
                InstallScope::Global => match home {
                    Some(h) => r matches Ok(parts) && parts@.map_values(|p: String| p@) == global_root(h@),
                    None => r == Err::<Vec<String>, ScopeError>(ScopeError::NoHomeDirectory),
                },
            },
    {
        match self {
            InstallScope::Project => Err(ScopeError::ProjectRootUnsupported),
            InstallScope::Global => match home {
                Some(h) => {
                    let mut parts: Vec<String> = Vec::new();
                    parts.push(h);
                    parts.push(String::from_str(".local"));
                    parts.push(String::from_str("share"));
                    parts.push(String::from_str("rah"));
                    assert(parts@.map_values(|p: String| p@) =~= global_root(home->0@));
                    Ok(parts)
                },
                None => Err(ScopeError::NoHomeDirectory),
            },
        }
    }
}


/// The path components of a tool's installation directory under a home directory:
/// `<home>/.local/share/rah/installs/<name>/<version>`.
pub open spec fn install_dir(home: Seq<char>, name: Seq<char>, version: Seq<char>) -> Seq<Seq<char>> {
    global_root(home) + seq!["installs"@, name, version]
}

/// The directory a tool version is installed in, as the path components to join
/// in order: `<home>/.local/share/rah/installs/<name>/<version>`; without a home
/// directory there is none.
pub fn install_path(home: Option<String>, name: &str, version: &str) -> (r: Result<Vec<String>, ScopeError>)
    ensures
        match home {
            Some(h) => r matches Ok(parts) && parts@.map_values(|p: String| p@) == install_dir(h@, name@, version@),
            None => r == Err::<Vec<String>, ScopeError>(ScopeError::NoHomeDirectory),
        },
{
    match InstallScope::Global.root(home) {
        Ok(mut parts) => {
            let ghost before = parts@;
            parts.push(String::from_str("installs"));
            parts.push(name.to_owned());
            parts.push(version.to_owned());
            assert(parts@.map_values(|p: String| p@) =~= before.map_values(|p: String| p@) + seq!["installs"@, name@, version@]);
            Ok(parts)
        },
        Err(e) => Err(e),
    }
}

} // verus!
