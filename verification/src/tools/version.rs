//! Resolved tool versions.

use vstd::prelude::*;

verus! {

/// A concrete version of a tool, such as `14.1.0`.
#[derive(Debug)]
pub struct ToolVersion {
    pub version: String,
}

impl ToolVersion {
    /// A version with the given text.
    pub fn new(version: &str) -> (v: ToolVersion)
        ensures
            v.version@ == version@,
    {
        ToolVersion { version: version.to_owned() }
    }

    /// The version as written.
    pub fn to_string(&self) -> (s: String)
        ensures
            s@ == self.version@,
    {
        self.version.clone()
    }
}

} // verus!
