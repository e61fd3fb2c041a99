//! The Git detector.

use vstd::prelude::*;

use super::{detection, DetectionView, DetectorKind, Markers, ProjectDetector};
#[allow(unused_imports)]
use super::Detection;

verus! {

/// Finds a Git project by its marker.
pub struct GitDetector;

impl ProjectDetector for GitDetector {
    open spec fn finds(&self, markers: Markers) -> Option<DetectionView> {
        if markers.git {
            Some(DetectionView { kind: DetectorKind::Git, name: "Git"@, reason: ".git exists"@ })
        } else {
            None
        }
    }

    fn detect(&self, markers: &Markers) -> (r: Option<Detection>) {
        if markers.git {
            Some(detection(DetectorKind::Git, "Git", ".git exists"))
        } else {
            None
        }
    }
}

} // verus!
