//! Resolved tools and the resolvers that find them.

use vstd::prelude::*;

use super::requirement::ToolRequirement;
use super::version::ToolVersion;

verus! {

/// A requirement resolved to a version and an executable.
#[derive(Debug)]
pub struct ResolvedTool {
    pub requirement: ToolRequirement,
    pub version: ToolVersion,
    pub executable: String,
    pub path: Option<String>,
}

/// Something that resolves requirements for a project root; for users to implement.
pub trait ToolResolver {
    /// Resolves a requirement under the given project root, or gives the reason it cannot.
    fn resolve(&self, requirement: &ToolRequirement, root: &str) -> Result<ResolvedTool, String>;
}

} // verus!
