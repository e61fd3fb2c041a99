//! What kinds of project a directory holds, judged by the marker files in it.

use vstd::prelude::*;

verus! {

/// What a directory holds, as far as project detection looks.
#[derive(Debug, Clone, Copy, PartialEq, Eq, Structural)]
pub struct Markers {
    /// `.git` exists (a directory or a file).
    pub git: bool,
    /// `Cargo.toml` is a file.
    pub cargo_toml: bool,
    /// `package.json` is a file.
    pub package_json: bool,
    /// `pyproject.toml` is a file.
    pub pyproject_toml: bool,
    /// `requirements.txt` is a file.
    pub requirements_txt: bool,
    /// `setup.py` is a file.
    pub setup_py: bool,
    /// `setup.cfg` is a file.
    pub setup_cfg: bool,
    /// `go.mod` is a file.
    pub go_mod: bool,
    /// `src-tauri` is a directory.
    pub src_tauri: bool,
}

/// The kinds of project Rah recognises.
#[derive(Debug, Clone, Copy, PartialEq, Eq, Structural)]
pub enum DetectorKind {
    Git,
    Rust,
    Node,
    Python,
    Go,
    Tauri,
}

/// One recognised kind of project, with a display name and the reason.
#[derive(Debug)]
pub struct Detection {
    pub kind: DetectorKind,
    pub name: &'static str,
    pub reason: String,
}

/// The mathematical value of a detection.
pub struct DetectionView {
    pub kind: DetectorKind,
    pub name: Seq<char>,
    pub reason: Seq<char>,
}

impl View for Detection {
    type V = DetectionView;

    open spec fn view(&self) -> DetectionView {
        DetectionView { kind: self.kind, name: self.name@, reason: self.reason@ }
    }
}

/// The views of a list of detections.
pub open spec fn detections_view(d: Seq<Detection>) -> Seq<DetectionView> {
    d.map_values(|x: Detection| x@)
}

impl Detection {
    /// A detection of `kind`, shown as `name`, found for `reason`.
    pub fn new(kind: DetectorKind, name: &'static str, reason: &str) -> (d: Detection)
        ensures
            d@ == (DetectionView { kind, name: name@, reason: reason@ }),
    {
        Detection { kind, name, reason: reason.to_owned() }
    }
}

/// A detection view from its parts.
pub open spec fn found(kind: DetectorKind, name: Seq<char>, reason: Seq<char>) -> Seq<DetectionView> {
    seq![DetectionView { kind, name, reason }]
}

/// The detections for a directory, in the order Git, Rust, Node.js, Python, Go, Tauri.
pub open spec fn detections_for(m: Markers) -> Seq<DetectionView> {
    (if m.git { found(DetectorKind::Git, "Git"@, "Found .git directory"@) } else { Seq::empty() })
    + (if m.cargo_toml { found(DetectorKind::Rust, "Rust"@, "Found Cargo.toml"@) } else { Seq::empty() })
    + (if m.package_json { found(DetectorKind::Node, "Node.js"@, "Found package.json"@) } else { Seq::empty() })
    + (if m.pyproject_toml || m.requirements_txt || m.setup_py {
        found(DetectorKind::Python, "Python"@, "Found Python project metadata"@)
    } else {
        Seq::empty()
    })
    + (if m.go_mod { found(DetectorKind::Go, "Go"@, "Found go.mod"@) } else { Seq::empty() })
    + (if m.src_tauri { found(DetectorKind::Tauri, "Tauri"@, "Found src-tauri directory"@) } else { Seq::empty() })
}

/// Pushes a detection and keeps the view of the list in step.
fn push_detection(list: &mut Vec<Detection>, kind: DetectorKind, name: &'static str, reason: &str)
    ensures
        detections_view(final(list)@) == detections_view(old(list)@) + found(kind, name@, reason@),
{
    let ghost before = list@;
    list.push(Detection::new(kind, name, reason));
    assert(detections_view(list@) =~= detections_view(before) + found(kind, name@, reason@));
}

/// Every kind of project that the directory's markers show, in a fixed order.
pub fn detect(markers: &Markers) -> (d: Vec<Detection>)
    ensures
        detections_view(d@) == detections_for(*markers),
{
    let mut detections: Vec<Detection> = Vec::new();
    let ghost m = *markers;
    assert(detections_view(detections@) =~= Seq::empty());
    if markers.git {
        push_detection(&mut detections, DetectorKind::Git, "Git", "Found .git directory");
    }
    if markers.cargo_toml {
        push_detection(&mut detections, DetectorKind::Rust, "Rust", "Found Cargo.toml");
    }
    if markers.package_json {
        push_detection(&mut detections, DetectorKind::Node, "Node.js", "Found package.json");
    }
    if markers.pyproject_toml || markers.requirements_txt || markers.setup_py {
        push_detection(&mut detections, DetectorKind::Python, "Python", "Found Python project metadata");
    }
    if markers.go_mod {
        push_detection(&mut detections, DetectorKind::Go, "Go", "Found go.mod");
    }
    if markers.src_tauri {
        push_detection(&mut detections, DetectorKind::Tauri, "Tauri", "Found src-tauri directory");
    }
    assert(detections_view(detections@) =~= detections_for(m));
    detections
}

} // verus!
