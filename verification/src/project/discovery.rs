//! Finding the project a directory belongs to: the nearest directory, going
//! upwards, in which some detector finds a project.

use vstd::prelude::*;

use super::detection::{
    detections_view, git::GitDetector, go::GoDetector, node::NodeDetector, python::PythonDetector,
    rust::RustDetector, tauri::TauriDetector, Detection, DetectionView, DetectorKind, Markers,
    ProjectDetector,
};

verus! {

/// A directory on the way up from the start, with what it holds.
pub struct Candidate {
    pub root: String,
    pub markers: Markers,
}

/// A project: its root directory and every kind of project found there.
#[derive(Debug)]
pub struct Project {
    pub root: String,
    pub detections: Vec<Detection>,
}

/// Why no project was found.
#[derive(Debug, Clone, Copy, PartialEq, Eq, Structural)]
pub enum DiscoveryError {
    /// No directory from the start upwards holds a project.
    NotFound,
}

/// A detector's finding as a list of zero or one detection.
pub open spec fn finding(f: Option<DetectionView>) -> Seq<DetectionView> {
    match f {
        Some(d) => seq![d],
        None => Seq::empty(),
    }
}

/// What all detectors find, in the order Git, Rust, Node.js, Python, Go, Tauri.
pub open spec fn all_detections(m: Markers) -> Seq<DetectionView> {
    finding(GitDetector.finds(m)) + finding(RustDetector.finds(m)) + finding(NodeDetector.finds(m))
        + finding(PythonDetector.finds(m)) + finding(GoDetector.finds(m)) + finding(TauriDetector.finds(m))
}

/// `i` is the nearest candidate in which a project is found.
pub open spec fn is_nearest_project(candidates: Seq<Candidate>, i: int) -> bool {
    &&& 0 <= i < candidates.len()
    &&& all_detections(candidates[i].markers).len() > 0
    &&& forall|j: int| 0 <= j < i ==> all_detections(#[trigger] candidates[j].markers).len() == 0
}

/// Adds a detector's finding to the list.
fn add_finding(list: &mut Vec<Detection>, found: Option<Detection>)
    ensures
        detections_view(final(list)@) == detections_view(old(list)@) + finding(
            match found {
                Some(d) => Some(d@),
                None => None,
            },
        ),
{
    let ghost before = list@;
    match found {
        Some(d) => {
            let ghost dv = d@;
            list.push(d);
            assert(detections_view(list@) =~= detections_view(before) + seq![dv]);
        },
        None => {
            assert(detections_view(list@) =~= detections_view(before) + Seq::<DetectionView>::empty());
        },
    }
}

/// Runs every detector on a directory: their findings, in the order Git, Rust,
/// Node.js, Python, Go, Tauri.
pub fn detect_all(markers: &Markers) -> (d: Vec<Detection>)
    ensures
        detections_view(d@) == all_detections(*markers),
{
    let mut detections: Vec<Detection> = Vec::new();
    assert(detections_view(detections@) =~= Seq::empty());
    add_finding(&mut detections, GitDetector.detect(markers));
    add_finding(&mut detections, RustDetector.detect(markers));
    add_finding(&mut detections, NodeDetector.detect(markers));
    add_finding(&mut detections, PythonDetector.detect(markers));
    add_finding(&mut detections, GoDetector.detect(markers));
    add_finding(&mut detections, TauriDetector.detect(markers));
    assert(detections_view(detections@) =~= all_detections(*markers));
    detections
}


/// The names in a list of detections.
pub open spec fn names(d: Seq<DetectionView>) -> Seq<Seq<char>> {
    d.map_values(|x: DetectionView| x.name)
}

/// A name in a list of zero or one names.
pub open spec fn named(present: bool, name: Seq<char>) -> Seq<Seq<char>> {
    if present { seq![name] } else { Seq::empty() }
}

proof fn lemma_names_concat(a: Seq<DetectionView>, b: Seq<DetectionView>)
    ensures
        names(a + b) =~= names(a) + names(b),
{
}

/// The names the detectors find, in order.
proof fn lemma_detector_names(m: Markers)
    ensures
        names(all_detections(m)) =~= named(m.git, "Git"@) + named(m.cargo_toml, "Rust"@) + named(m.package_json, "Node.js"@)
            + named(m.pyproject_toml || m.requirements_txt || m.setup_py || m.setup_cfg, "Python"@)
            + named(m.go_mod, "Go"@) + named(m.src_tauri, "Tauri"@),
{
    let a = finding(GitDetector.finds(m));
    let b = finding(RustDetector.finds(m));
    let c = finding(NodeDetector.finds(m));
    let d = finding(PythonDetector.finds(m));
    let e = finding(GoDetector.finds(m));
    let f = finding(TauriDetector.finds(m));
    lemma_names_concat(a, b);
    lemma_names_concat(a + b, c);
    lemma_names_concat(a + b + c, d);
    lemma_names_concat(a + b + c + d, e);
    lemma_names_concat(a + b + c + d + e, f);
    assert(names(a) =~= named(m.git, "Git"@));
    assert(names(b) =~= named(m.cargo_toml, "Rust"@));
    assert(names(c) =~= named(m.package_json, "Node.js"@));
    assert(names(d) =~= named(m.pyproject_toml || m.requirements_txt || m.setup_py || m.setup_cfg, "Python"@));
    assert(names(e) =~= named(m.go_mod, "Go"@));
    assert(names(f) =~= named(m.src_tauri, "Tauri"@));
}

/// Mapping a function over two lists joined is joining the mapped lists.
proof fn lemma_map_concat<A, B>(a: Seq<A>, b: Seq<A>, f: spec_fn(A) -> B)
    ensures
        (a + b).map_values(f) =~= a.map_values(f) + b.map_values(f),
{
}

/// `crate::detection::detections_for`, split into its six parts.
proof fn lemma_detect_parts(m: Markers) -> (parts: Seq<Seq<crate::detection::DetectionView>>)
    ensures
        parts.len() == 6,
        crate::detection::detections_for(m) == parts[0] + parts[1] + parts[2] + parts[3] + parts[4] + parts[5],
        parts[0] == (if m.git { crate::detection::found(crate::detection::DetectorKind::Git, "Git"@, "Found .git directory"@) } else { Seq::empty() }),
        parts[1] == (if m.cargo_toml { crate::detection::found(crate::detection::DetectorKind::Rust, "Rust"@, "Found Cargo.toml"@) } else { Seq::empty() }),
        parts[2] == (if m.package_json { crate::detection::found(crate::detection::DetectorKind::Node, "Node.js"@, "Found package.json"@) } else { Seq::empty() }),
        parts[3] == (if m.pyproject_toml || m.requirements_txt || m.setup_py {
            crate::detection::found(crate::detection::DetectorKind::Python, "Python"@, "Found Python project metadata"@)
        } else {
            Seq::empty()
        }),
        parts[4] == (if m.go_mod { crate::detection::found(crate::detection::DetectorKind::Go, "Go"@, "Found go.mod"@) } else { Seq::empty() }),
        parts[5] == (if m.src_tauri { crate::detection::found(crate::detection::DetectorKind::Tauri, "Tauri"@, "Found src-tauri directory"@) } else { Seq::empty() }),
{
    seq![
        if m.git { crate::detection::found(crate::detection::DetectorKind::Git, "Git"@, "Found .git directory"@) } else { Seq::empty() },
        if m.cargo_toml { crate::detection::found(crate::detection::DetectorKind::Rust, "Rust"@, "Found Cargo.toml"@) } else { Seq::empty() },
        if m.package_json { crate::detection::found(crate::detection::DetectorKind::Node, "Node.js"@, "Found package.json"@) } else { Seq::empty() },
        if m.pyproject_toml || m.requirements_txt || m.setup_py {
            crate::detection::found(crate::detection::DetectorKind::Python, "Python"@, "Found Python project metadata"@)
        } else {
            Seq::empty()
        },
        if m.go_mod { crate::detection::found(crate::detection::DetectorKind::Go, "Go"@, "Found go.mod"@) } else { Seq::empty() },
        if m.src_tauri { crate::detection::found(crate::detection::DetectorKind::Tauri, "Tauri"@, "Found src-tauri directory"@) } else { Seq::empty() },
    ]
}

/// Mapping a function over six lists joined is joining the six mapped lists.
proof fn lemma_map_six<B>(p: Seq<Seq<crate::detection::DetectionView>>, f: spec_fn(crate::detection::DetectionView) -> B)
    requires
        p.len() == 6,
    ensures
        (p[0] + p[1] + p[2] + p[3] + p[4] + p[5]).map_values(f) =~= p[0].map_values(f) + p[1].map_values(f)
            + p[2].map_values(f) + p[3].map_values(f) + p[4].map_values(f) + p[5].map_values(f),
{
    lemma_map_concat(p[0], p[1], f);
    lemma_map_concat(p[0] + p[1], p[2], f);
    lemma_map_concat(p[0] + p[1] + p[2], p[3], f);
    lemma_map_concat(p[0] + p[1] + p[2] + p[3], p[4], f);
    lemma_map_concat(p[0] + p[1] + p[2] + p[3] + p[4], p[5], f);
}

/// The names `crate::detection::detect` finds, in order.
proof fn lemma_detect_names(m: Markers)
    ensures
        crate::detection::detections_for(m).map_values(|x: crate::detection::DetectionView| x.name)
            =~= named(m.git, "Git"@) + named(m.cargo_toml, "Rust"@) + named(m.package_json, "Node.js"@)
            + named(m.pyproject_toml || m.requirements_txt || m.setup_py, "Python"@)
            + named(m.go_mod, "Go"@) + named(m.src_tauri, "Tauri"@),
{
    let f = |x: crate::detection::DetectionView| x.name;
    let p = lemma_detect_parts(m);
    lemma_map_six(p, f);
    assert(p[0].map_values(f) =~= named(m.git, "Git"@));
    assert(p[1].map_values(f) =~= named(m.cargo_toml, "Rust"@));
    assert(p[2].map_values(f) =~= named(m.package_json, "Node.js"@));
    assert(p[3].map_values(f) =~= named(m.pyproject_toml || m.requirements_txt || m.setup_py, "Python"@));
    assert(p[4].map_values(f) =~= named(m.go_mod, "Go"@));
    assert(p[5].map_values(f) =~= named(m.src_tauri, "Tauri"@));
}

/// The detectors and `crate::detection::detect` recognise the same kinds of
/// project, under the same names and in the same order, except in a directory
/// whose only Python marker is `setup.cfg`, which only the detectors count.
pub proof fn lemma_detectors_agree_with_detect(m: Markers)
    requires
        !(m.setup_cfg && !m.pyproject_toml && !m.requirements_txt && !m.setup_py),
    ensures
        names(all_detections(m)) == crate::detection::detections_for(m).map_values(
            |x: crate::detection::DetectionView| x.name,
        ),
{
    lemma_detector_names(m);
    lemma_detect_names(m);
    assert(m.pyproject_toml || m.requirements_txt || m.setup_py || m.setup_cfg
        <==> m.pyproject_toml || m.requirements_txt || m.setup_py);
}

/// The kind of project a detector's kind stands for among `crate::detection`'s kinds.
pub open spec fn as_detection_kind(k: DetectorKind) -> crate::detection::DetectorKind {
    match k {
        DetectorKind::Git => crate::detection::DetectorKind::Git,
        DetectorKind::Rust => crate::detection::DetectorKind::Rust,
        DetectorKind::Node => crate::detection::DetectorKind::Node,
        DetectorKind::Python => crate::detection::DetectorKind::Python,
        DetectorKind::Go => crate::detection::DetectorKind::Go,
        DetectorKind::Tauri => crate::detection::DetectorKind::Tauri,
    }
}

/// The kinds in a list of detector findings.
pub open spec fn kinds(d: Seq<DetectionView>) -> Seq<crate::detection::DetectorKind> {
    d.map_values(|x: DetectionView| as_detection_kind(x.kind))
}

/// The kinds in a list of `crate::detection` detections.
pub open spec fn detect_kinds(d: Seq<crate::detection::DetectionView>) -> Seq<crate::detection::DetectorKind> {
    d.map_values(|x: crate::detection::DetectionView| x.kind)
}

/// A kind in a list of zero or one kinds.
pub open spec fn kind_if(present: bool, k: crate::detection::DetectorKind) -> Seq<crate::detection::DetectorKind> {
    if present { seq![k] } else { Seq::empty() }
}

/// The kinds present, in the fixed order, with Python counted when `python` holds.
pub open spec fn kinds_in_order(m: Markers, python: bool) -> Seq<crate::detection::DetectorKind> {
    kind_if(m.git, crate::detection::DetectorKind::Git) + kind_if(m.cargo_toml, crate::detection::DetectorKind::Rust)
        + kind_if(m.package_json, crate::detection::DetectorKind::Node)
        + kind_if(python, crate::detection::DetectorKind::Python) + kind_if(m.go_mod, crate::detection::DetectorKind::Go)
        + kind_if(m.src_tauri, crate::detection::DetectorKind::Tauri)
}

proof fn lemma_kinds_concat(a: Seq<DetectionView>, b: Seq<DetectionView>)
    ensures
        kinds(a + b) =~= kinds(a) + kinds(b),
{
}

/// The kinds the detectors find, in order.
proof fn lemma_detector_kinds(m: Markers)
    ensures
        kinds(all_detections(m)) =~= kinds_in_order(
            m,
            m.pyproject_toml || m.requirements_txt || m.setup_py || m.setup_cfg,
        ),
{
    let a = finding(GitDetector.finds(m));
    let b = finding(RustDetector.finds(m));
    let c = finding(NodeDetector.finds(m));
    let d = finding(PythonDetector.finds(m));
    let e = finding(GoDetector.finds(m));
    let f = finding(TauriDetector.finds(m));
    lemma_kinds_concat(a, b);
    lemma_kinds_concat(a + b, c);
    lemma_kinds_concat(a + b + c, d);
    lemma_kinds_concat(a + b + c + d, e);
    lemma_kinds_concat(a + b + c + d + e, f);
    assert(kinds(a) =~= kind_if(m.git, crate::detection::DetectorKind::Git));
    assert(kinds(b) =~= kind_if(m.cargo_toml, crate::detection::DetectorKind::Rust));
    assert(kinds(c) =~= kind_if(m.package_json, crate::detection::DetectorKind::Node));
    assert(kinds(d) =~= kind_if(
        m.pyproject_toml || m.requirements_txt || m.setup_py || m.setup_cfg,
        crate::detection::DetectorKind::Python,
    ));
    assert(kinds(e) =~= kind_if(m.go_mod, crate::detection::DetectorKind::Go));
    assert(kinds(f) =~= kind_if(m.src_tauri, crate::detection::DetectorKind::Tauri));
}

/// The kinds `crate::detection::detect` finds, in order.
proof fn lemma_detect_kinds(m: Markers)
    ensures
        detect_kinds(crate::detection::detections_for(m))
            =~= kinds_in_order(m, m.pyproject_toml || m.requirements_txt || m.setup_py),
{
    let f = |x: crate::detection::DetectionView| x.kind;
    let p = lemma_detect_parts(m);
    lemma_map_six(p, f);
    assert(p[0].map_values(f) =~= kind_if(m.git, crate::detection::DetectorKind::Git));
    assert(p[1].map_values(f) =~= kind_if(m.cargo_toml, crate::detection::DetectorKind::Rust));
    assert(p[2].map_values(f) =~= kind_if(m.package_json, crate::detection::DetectorKind::Node));
    assert(p[3].map_values(f) =~= kind_if(
        m.pyproject_toml || m.requirements_txt || m.setup_py,
        crate::detection::DetectorKind::Python,
    ));
    assert(p[4].map_values(f) =~= kind_if(m.go_mod, crate::detection::DetectorKind::Go));
    assert(p[5].map_values(f) =~= kind_if(m.src_tauri, crate::detection::DetectorKind::Tauri));
}

/// The detectors and `crate::detection::detect` find the same kinds of project,
/// in the same order, except that the detectors also count `setup.cfg` as Python
/// metadata: what they find in a directory is what `detect` finds when a
/// `setup.cfg` counts as a `setup.py`, and in a directory whose only Python marker
/// is not `setup.cfg` the two agree outright.
pub proof fn lemma_detector_kinds_agree_with_detect(m: Markers)
    ensures
        kinds(all_detections(m)) == detect_kinds(
            crate::detection::detections_for(Markers { setup_py: m.setup_py || m.setup_cfg, ..m }),
        ),
        !(m.setup_cfg && !m.pyproject_toml && !m.requirements_txt && !m.setup_py) ==> kinds(all_detections(m))
            == detect_kinds(crate::detection::detections_for(m)),
        (m.setup_cfg && !m.pyproject_toml && !m.requirements_txt && !m.setup_py) ==> (
            kinds(all_detections(m)).contains(crate::detection::DetectorKind::Python)
            && !detect_kinds(crate::detection::detections_for(m)).contains(crate::detection::DetectorKind::Python)),
{
    let m2 = Markers { setup_py: m.setup_py || m.setup_cfg, ..m };
    lemma_detector_kinds(m);
    lemma_detect_kinds(m);
    lemma_detect_kinds(m2);
    lemma_kinds_same_markers(m, m2, m.pyproject_toml || m.requirements_txt || m.setup_py || m.setup_cfg);
    lemma_python_in_order(m, true);
    lemma_python_in_order(m, false);
}

/// The kinds in order depend on the markers other than the Python ones only
/// through the Python flag.
proof fn lemma_kinds_same_markers(m: Markers, n: Markers, python: bool)
    requires
        m.git == n.git,
        m.cargo_toml == n.cargo_toml,
        m.package_json == n.package_json,
        m.go_mod == n.go_mod,
        m.src_tauri == n.src_tauri,
    ensures
        kinds_in_order(m, python) == kinds_in_order(n, python),
{
}

/// A kind that is not `k` is not in a list of zero or one `k`.
proof fn lemma_kind_if_lacks(present: bool, k: crate::detection::DetectorKind, x: crate::detection::DetectorKind)
    requires
        k != x,
    ensures
        !kind_if(present, k).contains(x),
{
    assert forall|i: int| 0 <= i < kind_if(present, k).len() implies kind_if(present, k)[i] != x by {
    }
}

/// A value in neither of two lists is not in the two joined.
proof fn lemma_concat_lacks(a: Seq<crate::detection::DetectorKind>, b: Seq<crate::detection::DetectorKind>, x: crate::detection::DetectorKind)
    requires
        !a.contains(x),
        !b.contains(x),
    ensures
        !(a + b).contains(x),
{
    assert forall|i: int| 0 <= i < (a + b).len() implies (a + b)[i] != x by {
        if i < a.len() {
            assert((a + b)[i] == a[i]);
        } else {
            assert((a + b)[i] == b[i - a.len()]);
        }
    }
}

/// Python is among the kinds in order exactly when the Python flag is set.
proof fn lemma_python_in_order(m: Markers, python: bool)
    ensures
        kinds_in_order(m, python).contains(crate::detection::DetectorKind::Python) == python,
{
    let py = crate::detection::DetectorKind::Python;
    let g = kind_if(m.git, crate::detection::DetectorKind::Git);
    let r = kind_if(m.cargo_toml, crate::detection::DetectorKind::Rust);
    let n = kind_if(m.package_json, crate::detection::DetectorKind::Node);
    let b = kind_if(python, py);
    let o = kind_if(m.go_mod, crate::detection::DetectorKind::Go);
    let t = kind_if(m.src_tauri, crate::detection::DetectorKind::Tauri);
    lemma_kind_if_lacks(m.git, crate::detection::DetectorKind::Git, py);
    lemma_kind_if_lacks(m.cargo_toml, crate::detection::DetectorKind::Rust, py);
    lemma_kind_if_lacks(m.package_json, crate::detection::DetectorKind::Node, py);
    lemma_kind_if_lacks(m.go_mod, crate::detection::DetectorKind::Go, py);
    lemma_kind_if_lacks(m.src_tauri, crate::detection::DetectorKind::Tauri, py);
    lemma_concat_lacks(g, r, py);
    lemma_concat_lacks(g + r, n, py);
    let k = kinds_in_order(m, python);
    assert(k == g + r + n + b + o + t);
    if python {
        let j = (g + r + n).len() as int;
        assert(k[j] == py);
        assert(k.contains(py));
    } else {
        assert(b =~= Seq::<crate::detection::DetectorKind>::empty());
        assert(g + r + n + b =~= g + r + n);
        lemma_concat_lacks(g + r + n, o, py);
        lemma_concat_lacks(g + r + n + o, t, py);
        assert(k =~= g + r + n + o + t);
    }
}

impl Project {
    /// The project of the nearest candidate (the start directory first, then its
    /// parents in order) in which some detector finds a project.
    pub fn discover(candidates: &Vec<Candidate>) -> (r: Result<Project, DiscoveryError>)
        ensures
            match r {
                Ok(p) => exists|i: int|
                    is_nearest_project(candidates@, i) && p.root@ == candidates@[i].root@
                        && detections_view(p.detections@) == all_detections(candidates@[i].markers),
                Err(e) => e == DiscoveryError::NotFound && forall|i: int|
                    0 <= i < candidates@.len() ==> all_detections(#[trigger] candidates@[i].markers).len() == 0,
            },
    {
        let mut i: usize = 0;
        while i < candidates.len()
            invariant
                i <= candidates.len(),
                forall|j: int| 0 <= j < i ==> all_detections(#[trigger] candidates@[j].markers).len() == 0,
            decreases candidates.len() - i,
        {
            let detections = detect_all(&candidates[i].markers);
            if detections.len() > 0 {
                let p = Project { root: candidates[i].root.clone(), detections };
                assert(is_nearest_project(candidates@, i as int));
                return Ok(p);
            }
            i = i + 1;
        }
        Err(DiscoveryError::NotFound)
    }
}

} // verus!
