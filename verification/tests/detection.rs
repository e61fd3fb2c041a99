use rah::detection::{detect, Detection, DetectorKind, Markers};
use rah::project::{Candidate, Project};

fn nothing() -> Markers {
    Markers {
        git: false,
        cargo_toml: false,
        package_json: false,
        pyproject_toml: false,
        requirements_txt: false,
        setup_py: false,
        setup_cfg: false,
        go_mod: false,
        src_tauri: false,
    }
}

#[test]
fn detection_new_keeps_its_parts() {
    let d = Detection::new(DetectorKind::Go, "Go", "Found go.mod");

    assert_eq!(d.kind, DetectorKind::Go);
    assert_eq!(d.name, "Go");
    assert_eq!(d.reason, "Found go.mod");
}

#[test]
fn detect_lists_every_kind_in_order() {
    let markers = Markers {
        git: true,
        cargo_toml: true,
        package_json: true,
        setup_py: true,
        go_mod: true,
        src_tauri: true,
        ..nothing()
    };

    let found = detect(&markers);

    let kinds: Vec<DetectorKind> = found.iter().map(|d| d.kind).collect();
    assert_eq!(
        kinds,
        vec![
            DetectorKind::Git,
            DetectorKind::Rust,
            DetectorKind::Node,
            DetectorKind::Python,
            DetectorKind::Go,
            DetectorKind::Tauri,
        ]
    );
    assert_eq!(found[0].reason, "Found .git directory");
    assert_eq!(found[2].name, "Node.js");
    assert_eq!(found[3].reason, "Found Python project metadata");
    assert_eq!(found[5].reason, "Found src-tauri directory");
}

#[test]
fn detect_finds_nothing_in_an_empty_directory() {
    assert!(detect(&nothing()).is_empty());
}

#[test]
fn detect_ignores_setup_cfg_alone() {
    assert!(detect(&Markers { setup_cfg: true, ..nothing() }).is_empty());
}

#[test]
fn project_discover_stops_at_first_directory_that_looks_like_a_project() {
    let candidates = vec![
        Candidate { root: "/a/b".to_string(), markers: nothing() },
        Candidate { root: "/a".to_string(), markers: Markers { requirements_txt: true, ..nothing() } },
        Candidate { root: "/".to_string(), markers: Markers { git: true, ..nothing() } },
    ];

    let project = Project::discover(&candidates).unwrap();

    assert_eq!(project.root(), "/a");

    let found = project.detect(&Markers { requirements_txt: true, ..nothing() });
    assert_eq!(found.len(), 1);
    assert_eq!(found[0].name, "Python");
}

#[test]
fn project_discover_finds_nothing_without_markers() {
    let candidates = vec![
        Candidate { root: "/a".to_string(), markers: Markers { setup_cfg: true, ..nothing() } },
        Candidate { root: "/".to_string(), markers: nothing() },
    ];

    assert!(Project::discover(&candidates).is_none());
}
