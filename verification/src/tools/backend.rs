//! Tool backends: where tools come from.

use vstd::prelude::*;

use super::requirement::{RequirementView, ToolRequirement};
use crate::text::str_eq;

verus! {

/// A source of tools, known by name, that says which requirements it serves.
pub trait ToolBackend {
    /// The backend's name.
    spec fn spec_name(&self) -> Seq<char>;

    /// Whether the backend serves a requirement.
    spec fn spec_supports(&self, requirement: RequirementView) -> bool;

    /// The backend's name, as written in `backend:name` requirements.
    fn name(&self) -> (n: &'static str)
        ensures
            n@ == self.spec_name(),
    ;

    /// Whether the backend serves the requirement.
    fn supports(&self, requirement: &ToolRequirement) -> (b: bool)
        ensures
            b == self.spec_supports(requirement@),
    ;
}

/// The backends Rah has.
#[derive(Debug, Clone, Copy, PartialEq, Eq, Structural)]
pub enum BackendKind {
    /// Release archives of GitHub repositories (`github:owner/repo`).
    GitHub,
}

impl ToolBackend for BackendKind {
    open spec fn spec_name(&self) -> Seq<char> {
        match self {
            BackendKind::GitHub => "github"@,
        }
    }

    open spec fn spec_supports(&self, requirement: RequirementView) -> bool {
        match self {
            BackendKind::GitHub => requirement.backend == Some("github"@),
        }
    }

    fn name(&self) -> (n: &'static str) {
        match self {
            BackendKind::GitHub => "github",
        }
    }

    fn supports(&self, requirement: &ToolRequirement) -> (b: bool) {
        match self {
            BackendKind::GitHub => match &requirement.backend {
                Some(b) => str_eq(b.as_str(), "github"),
                None => false,
            },
        }
    }
}

} // verus!
