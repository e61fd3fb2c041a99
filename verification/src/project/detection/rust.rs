//! The Rust detector.

use vstd::prelude::*;

use super::{detection, DetectionView, DetectorKind, Markers, ProjectDetector};
#[allow(unused_imports)]
use super::Detection;

verus! {

/// Finds a Rust project by its marker.
pub struct RustDetector;

impl ProjectDetector for RustDetector {
    open spec fn finds(&self, markers: Markers) -> Option<DetectionView> {
        if markers.cargo_toml {
            Some(DetectionView { kind: DetectorKind::Rust, name: "Rust"@, reason: "Cargo.toml exists"@ })
        } else {
            None
        }
    }

    fn detect(&self, markers: &Markers) -> (r: Option<Detection>) {
        if markers.cargo_toml {
            Some(detection(DetectorKind::Rust, "Rust", "Cargo.toml exists"))
        } else {
            None
        }
    }
}

} // verus!
