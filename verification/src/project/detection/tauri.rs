//! The Tauri detector.

use vstd::prelude::*;

use super::{detection, DetectionView, DetectorKind, Markers, ProjectDetector};
#[allow(unused_imports)]
use super::Detection;

verus! {

/// Finds a Tauri project by its marker.
pub struct TauriDetector;

impl ProjectDetector for TauriDetector {
    open spec fn finds(&self, markers: Markers) -> Option<DetectionView> {
        if markers.src_tauri {
            Some(DetectionView { kind: DetectorKind::Tauri, name: "Tauri"@, reason: "src-tauri exists"@ })
        } else {
            None
        }
    }

    fn detect(&self, markers: &Markers) -> (r: Option<Detection>) {
        if markers.src_tauri {
            Some(detection(DetectorKind::Tauri, "Tauri", "src-tauri exists"))
        } else {
            None
        }
    }
}

} // verus!
