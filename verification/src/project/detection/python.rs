//! The Python detector.

use vstd::prelude::*;

use super::{detection, DetectionView, DetectorKind, Markers, ProjectDetector};
#[allow(unused_imports)]
use super::Detection;

verus! {

/// Finds a Python project by the first of its metadata files that is present:
/// `pyproject.toml`, `requirements.txt`, `setup.py`, `setup.cfg`.
pub struct PythonDetector;

/// The first Python marker present, if any.
pub open spec fn python_marker(markers: Markers) -> Option<Seq<char>> {
    if markers.pyproject_toml {
        Some("pyproject.toml"@)
    } else if markers.requirements_txt {
        Some("requirements.txt"@)
    } else if markers.setup_py {
        Some("setup.py"@)
    } else if markers.setup_cfg {
        Some("setup.cfg"@)
    } else {
        None
    }
}

impl ProjectDetector for PythonDetector {
    open spec fn finds(&self, markers: Markers) -> Option<DetectionView> {
        match python_marker(markers) {
            Some(marker) => Some(
                DetectionView { kind: DetectorKind::Python, name: "Python"@, reason: marker + " exists"@ },
            ),
            None => None,
        }
    }

    fn detect(&self, markers: &Markers) -> (r: Option<Detection>) {
        let marker: &str = if markers.pyproject_toml {
            "pyproject.toml"
        } else if markers.requirements_txt {
            "requirements.txt"
        } else if markers.setup_py {
            "setup.py"
        } else if markers.setup_cfg {
            "setup.cfg"
        } else {
            return None;
        };
        let mut reason = marker.to_owned();
        reason.append(" exists");
        Some(detection(DetectorKind::Python, "Python", reason.as_str()))
    }
}

} // verus!
