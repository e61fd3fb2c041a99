//! Projects: the directory a command works in, found by walking upwards.

use vstd::prelude::*;

use crate::detection::{detect, detections_for, detections_view, Detection, Markers};

pub mod detection;
pub mod discovery;

verus! {

/// A directory on the way up from the start, with what it holds.
pub struct Candidate {
    pub root: String,
    pub markers: Markers,
}

/// A project, known by its root directory.
#[derive(Debug)]
pub struct Project {
    root: String,
}

/// A directory looks like a project when it holds any project marker.
pub open spec fn looks_like(m: Markers) -> bool {
    m.git || m.cargo_toml || m.package_json || m.pyproject_toml || m.requirements_txt || m.setup_py
        || m.go_mod || m.src_tauri
}

/// `i` is the nearest candidate that looks like a project.
pub open spec fn is_nearest(candidates: Seq<Candidate>, i: int) -> bool {
    &&& 0 <= i < candidates.len()
    &&& looks_like(candidates[i].markers)
    &&& forall|j: int| 0 <= j < i ==> !looks_like(#[trigger] candidates[j].markers)
}


/// A directory looks like a project exactly when detection finds some kind of
/// project in it, so `Project::discover` stops where `detect` finds something.
pub proof fn lemma_looks_like_iff_detected(m: Markers)
    ensures
        looks_like(m) <==> detections_for(m).len() > 0,
{
}

impl Project {
    /// The root of the project.
    pub closed spec fn spec_root(&self) -> Seq<char> {
        self.root@
    }

    /// The nearest candidate (the start directory first, then its parents in order)
    /// that looks like a project; `None` when none does.
    pub fn discover(candidates: &Vec<Candidate>) -> (r: Option<Project>)
        ensures
            match r {
                Some(p) => exists|i: int| is_nearest(candidates@, i) && p.spec_root() == candidates@[i].root@,
                None => forall|i: int| 0 <= i < candidates@.len() ==> !looks_like(#[trigger] candidates@[i].markers),
            },
    {
        let mut i: usize = 0;
        while i < candidates.len()
            invariant
                i <= candidates.len(),
                forall|j: int| 0 <= j < i ==> !looks_like(#[trigger] candidates@[j].markers),
            decreases candidates.len() - i,
        {
            if Self::looks_like_project(&candidates[i].markers) {
                assert(is_nearest(candidates@, i as int));
                return Some(Project { root: candidates[i].root.clone() });
            }
            i = i + 1;
        }
        None
    }

    /// Whether a directory with these markers looks like a project: it holds `.git`
    /// or any project file, or a `src-tauri` directory.
    pub fn looks_like_project(markers: &Markers) -> (b: bool)
        ensures
            b == looks_like(*markers),
    {
        markers.git || markers.cargo_toml || markers.package_json || markers.pyproject_toml
            || markers.requirements_txt || markers.setup_py || markers.go_mod || markers.src_tauri
    }

    /// The root directory of the project.
    pub fn root(&self) -> (r: &str)
        ensures
            r@ == self.spec_root(),
    {
        self.root.as_str()
    }

    /// The kinds of project at the root, given what the root holds.
    pub fn detect(&self, markers: &Markers) -> (d: Vec<Detection>)
        ensures
            detections_view(d@) == detections_for(*markers),
    {
        detect(markers)
    }
}

} // verus!
