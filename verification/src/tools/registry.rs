//! The registry of backends and how a requirement picks one.

use vstd::prelude::*;

use super::backend::{BackendKind, ToolBackend};
use super::requirement::{RequirementView, ToolRequirement};
use crate::text::str_eq;

verus! {

/// Why no backend was picked.
#[derive(Debug, Clone, PartialEq, Eq)]
pub enum RegistryError {
    /// The requirement names a backend that the registry lacks; holds the name.
    UnknownBackend(String),
    /// No backend serves the requirement.
    NoBackend,
}

/// The backends Rah can install from.
pub struct ToolRegistry {
    backends: Vec<BackendKind>,
}

/// `i` is the first backend with the given name.
pub open spec fn first_named(backends: Seq<BackendKind>, name: Seq<char>, i: int) -> bool {
    &&& 0 <= i < backends.len()
    &&& backends[i].spec_name() == name
    &&& forall|j: int| 0 <= j < i ==> (#[trigger] backends[j]).spec_name() != name
}

/// `i` is the first backend that serves the requirement.
pub open spec fn first_supporting(backends: Seq<BackendKind>, r: RequirementView, i: int) -> bool {
    &&& 0 <= i < backends.len()
    &&& backends[i].spec_supports(r)
    &&& forall|j: int| 0 <= j < i ==> !(#[trigger] backends[j]).spec_supports(r)
}

impl ToolRegistry {
    /// The registered backends, in order.
    pub closed spec fn spec_backends(&self) -> Seq<BackendKind> {
        self.backends@
    }

    /// The registry with the GitHub backend.
    pub fn new() -> (r: ToolRegistry)
        ensures
            r.spec_backends() == seq![BackendKind::GitHub],
    {
        let mut backends: Vec<BackendKind> = Vec::new();
        backends.push(BackendKind::GitHub);
        ToolRegistry { backends }
    }

    /// The backend for a requirement: the first backend with the name the
    /// requirement gives, or, without a name, the first that serves it.
    pub fn resolve_backend(&self, requirement: &ToolRequirement) -> (r: Result<BackendKind, RegistryError>)
        ensures
            match requirement@.backend {
                Some(name) => match r {
                    Ok(b) => exists|i: int| first_named(self.spec_backends(), name, i) && b == self.spec_backends()[i],
                    Err(e) => (e matches RegistryError::UnknownBackend(n) && n@ == name) && forall|i: int|
                        0 <= i < self.spec_backends().len() ==> (#[trigger] self.spec_backends()[i]).spec_name() != name,
                },
                None => match r {
                    Ok(b) => exists|i: int| first_supporting(self.spec_backends(), requirement@, i) && b == self.spec_backends()[i],
                    Err(e) => e == RegistryError::NoBackend && forall|i: int|
                        0 <= i < self.spec_backends().len() ==> !(#[trigger] self.spec_backends()[i]).spec_supports(requirement@),
                },
            },
    {
        match &requirement.backend {
            Some(name) => {
                let mut i: usize = 0;
                while i < self.backends.len()
                    invariant
                        i <= self.backends.len(),
                        requirement@.backend == Some(name@),
                        forall|j: int| 0 <= j < i ==> (#[trigger] self.backends@[j]).spec_name() != name@,
                    decreases self.backends.len() - i,
                {
                    let b = self.backends[i];
                    if str_eq(b.name(), name.as_str()) {
                        assert(first_named(self.spec_backends(), name@, i as int));
                        return Ok(b);
                    }
                    i = i + 1;
                }
                Err(RegistryError::UnknownBackend(name.clone()))
            },
            None => {
                let mut i: usize = 0;
                while i < self.backends.len()
                    invariant
                        i <= self.backends.len(),
                        forall|j: int| 0 <= j < i ==> !(#[trigger] self.backends@[j]).spec_supports(requirement@),
                    decreases self.backends.len() - i,
                {
                    let b = self.backends[i];
                    if b.supports(requirement) {
                        assert(first_supporting(self.spec_backends(), requirement@, i as int));
                        return Ok(b);
                    }
                    i = i + 1;
                }
                Err(RegistryError::NoBackend)
            },
        }
    }
}

} // verus!
