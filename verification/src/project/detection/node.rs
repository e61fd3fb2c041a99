//! The Node.js detector.

use vstd::prelude::*;

use super::{detection, DetectionView, DetectorKind, Markers, ProjectDetector};
#[allow(unused_imports)]
use super::Detection;

verus! {

/// Finds a Node.js project by its marker.
pub struct NodeDetector;

impl ProjectDetector for NodeDetector {
    open spec fn finds(&self, markers: Markers) -> Option<DetectionView> {
        if markers.package_json {
            Some(DetectionView { kind: DetectorKind::Node, name: "Node.js"@, reason: "package.json exists"@ })
        } else {
            None
        }
    }

    fn detect(&self, markers: &Markers) -> (r: Option<Detection>) {
        if markers.package_json {
            Some(detection(DetectorKind::Node, "Node.js", "package.json exists"))
        } else {
            None
        }
    }
}

} // verus!
