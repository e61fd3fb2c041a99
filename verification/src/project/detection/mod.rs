//! Detectors, one per kind of project, each judging a directory by its markers.

use vstd::prelude::*;

pub use crate::detection::Markers;

pub mod git;
pub mod go;
pub mod node;
pub mod python;
pub mod rust;
pub mod tauri;

verus! {

/// The kinds of project the detectors recognise.
#[derive(Debug, Clone, Copy, PartialEq, Eq, Structural)]
pub enum DetectorKind {
    Git,
    Rust,
    Node,
    Python,
    Go,
    Tauri,
}

/// What one detector found: the kind, a display name and the reason.
#[derive(Debug)]
pub struct Detection {
    pub kind: DetectorKind,
    pub name: &'static str,
    pub reason: String,
}

/// The mathematical value of a detection.
pub struct DetectionView {
    pub kind: DetectorKind,
    pub name: Seq<char>,
    pub reason: Seq<char>,
}

impl View for Detection {
    type V = DetectionView;

    open spec fn view(&self) -> DetectionView {
        DetectionView { kind: self.kind, name: self.name@, reason: self.reason@ }
    }
}

/// The views of a list of detections.
pub open spec fn detections_view(d: Seq<Detection>) -> Seq<DetectionView> {
    d.map_values(|x: Detection| x@)
}

/// A detector of one kind of project.
pub trait ProjectDetector {
    /// What the detector finds in a directory with these markers.
    spec fn finds(&self, markers: Markers) -> Option<DetectionView>;

    /// Looks at a directory's markers.
    fn detect(&self, markers: &Markers) -> (r: Option<Detection>)
        ensures
            match r {
                Some(d) => self.finds(*markers) == Some(d@),
                None => self.finds(*markers) is None,
            },
    ;
}

/// A detection made of its parts.
pub fn detection(kind: DetectorKind, name: &'static str, reason: &str) -> (d: Detection)
    ensures
        d@ == (DetectionView { kind, name: name@, reason: reason@ }),
{
    Detection { kind, name, reason: reason.to_owned() }
}

} // verus!
