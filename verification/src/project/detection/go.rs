//! The Go detector.

use vstd::prelude::*;

use super::{detection, DetectionView, DetectorKind, Markers, ProjectDetector};
#[allow(unused_imports)]
use super::Detection;

verus! {

/// Finds a Go project by its marker.
pub struct GoDetector;

impl ProjectDetector for GoDetector {
    open spec fn finds(&self, markers: Markers) -> Option<DetectionView> {
        if markers.go_mod {
            Some(DetectionView { kind: DetectorKind::Go, name: "Go"@, reason: "go.mod exists"@ })
        } else {
            None
        }
    }

    fn detect(&self, markers: &Markers) -> (r: Option<Detection>) {
        if markers.go_mod {
            Some(detection(DetectorKind::Go, "Go", "go.mod exists"))
        } else {
            None
        }
    }
}

} // verus!
