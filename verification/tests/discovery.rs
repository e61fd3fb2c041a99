use rah::detection::Markers;
use rah::project::discovery::{Candidate, DiscoveryError, Project};

fn nothing() -> Markers {
    Markers {
        git: false,
        cargo_toml: false,
        package_json: false,
        pyproject_toml: false,
        requirements_txt: false,
        setup_py: false,
        setup_cfg: false,
        go_mod: false,
        src_tauri: false,
    }
}

fn candidate(root: &str, markers: Markers) -> Candidate {
    Candidate { root: root.to_string(), markers }
}

/// The directories from `/tmp/project` upwards, the project holding `markers`.
fn from_project(markers: Markers) -> Vec<Candidate> {
    vec![
        candidate("/tmp/project", markers),
        candidate("/tmp", nothing()),
        candidate("/", nothing()),
    ]
}

#[test]
fn discovers_project_from_current_directory() {
    let markers = Markers { cargo_toml: true, ..nothing() };

    let project = Project::discover(&from_project(markers)).unwrap();

    assert_eq!(project.root, "/tmp/project");
    assert_eq!(project.detections.len(), 1);
    assert_eq!(project.detections[0].name, "Rust");
}

#[test]
fn discovers_project_from_nested_directory() {
    let candidates = vec![
        candidate("/tmp/project/src/components", nothing()),
        candidate("/tmp/project/src", nothing()),
        candidate("/tmp/project", Markers { cargo_toml: true, ..nothing() }),
        candidate("/tmp", nothing()),
        candidate("/", nothing()),
    ];

    let project = Project::discover(&candidates).unwrap();

    assert_eq!(project.root, "/tmp/project");
}

#[test]
fn detects_multiple_project_types() {
    let markers = Markers {
        cargo_toml: true,
        package_json: true,
        src_tauri: true,
        ..nothing()
    };

    let project = Project::discover(&from_project(markers)).unwrap();

    assert_eq!(project.detections.len(), 3);

    assert!(project.detections.iter().any(|d| d.name == "Rust"));
    assert!(project.detections.iter().any(|d| d.name == "Node.js"));
    assert!(project.detections.iter().any(|d| d.name == "Tauri"));
}

#[test]
fn discovers_git_project() {
    let project = Project::discover(&from_project(Markers { git: true, ..nothing() })).unwrap();

    assert_eq!(project.detections.len(), 1);
    assert_eq!(project.detections[0].name, "Git");
}

#[test]
fn discovers_python_project() {
    let markers = Markers { pyproject_toml: true, ..nothing() };

    let project = Project::discover(&from_project(markers)).unwrap();

    assert_eq!(project.detections.len(), 1);
    assert_eq!(project.detections[0].name, "Python");
}

#[test]
fn discovers_go_project() {
    let project = Project::discover(&from_project(Markers { go_mod: true, ..nothing() })).unwrap();

    assert_eq!(project.detections.len(), 1);
    assert_eq!(project.detections[0].name, "Go");
}

#[test]
fn fails_when_no_project_is_found() {
    let result = Project::discover(&from_project(nothing()));

    assert!(result.is_err());
    assert_eq!(result.unwrap_err(), DiscoveryError::NotFound);
}

#[test]
fn nearest_project_wins_over_outer_one() {
    let candidates = vec![
        candidate("/work/app", Markers { package_json: true, ..nothing() }),
        candidate("/work", Markers { git: true, ..nothing() }),
        candidate("/", nothing()),
    ];

    let project = Project::discover(&candidates).unwrap();

    assert_eq!(project.root, "/work/app");
    assert_eq!(project.detections.len(), 1);
    assert_eq!(project.detections[0].name, "Node.js");
}

#[test]
fn detectors_report_in_order_with_reasons() {
    let markers = Markers {
        git: true,
        cargo_toml: true,
        package_json: true,
        requirements_txt: true,
        setup_cfg: true,
        go_mod: true,
        src_tauri: true,
        ..nothing()
    };

    let project = Project::discover(&from_project(markers)).unwrap();

    let names: Vec<&str> = project.detections.iter().map(|d| d.name).collect();
    assert_eq!(names, vec!["Git", "Rust", "Node.js", "Python", "Go", "Tauri"]);

    let reasons: Vec<&str> = project.detections.iter().map(|d| d.reason.as_str()).collect();
    assert_eq!(
        reasons,
        vec![
            ".git exists",
            "Cargo.toml exists",
            "package.json exists",
            "requirements.txt exists",
            "go.mod exists",
            "src-tauri exists",
        ]
    );
}

#[test]
fn python_detector_counts_setup_cfg() {
    let project = Project::discover(&from_project(Markers { setup_cfg: true, ..nothing() })).unwrap();

    assert_eq!(project.detections.len(), 1);
    assert_eq!(project.detections[0].reason, "setup.cfg exists");
}

#[test]
fn discovery_of_empty_candidate_list_fails() {
    assert!(Project::discover(&Vec::new()).is_err());
}

fn kinds_of_detectors(markers: &Markers) -> Vec<String> {
    rah::project::discovery::detect_all(markers).iter().map(|d| format!("{:?}", d.kind)).collect()
}

fn kinds_of_detect(markers: &Markers) -> Vec<String> {
    rah::detection::detect(markers).iter().map(|d| format!("{:?}", d.kind)).collect()
}

#[test]
fn detectors_agree_with_detect_on_kinds() {
    let markers = Markers { git: true, cargo_toml: true, pyproject_toml: true, go_mod: true, ..nothing() };

    assert_eq!(kinds_of_detectors(&markers), vec!["Git", "Rust", "Python", "Go"]);
    assert_eq!(kinds_of_detectors(&markers), kinds_of_detect(&markers));
}

#[test]
fn only_detectors_count_setup_cfg() {
    let markers = Markers { cargo_toml: true, setup_cfg: true, ..nothing() };

    assert_eq!(kinds_of_detectors(&markers), vec!["Rust", "Python"]);
    assert_eq!(kinds_of_detect(&markers), vec!["Rust"]);
}

#[test]
fn looks_like_a_project_exactly_when_something_is_detected() {
    let all = [
        nothing(),
        Markers { git: true, ..nothing() },
        Markers { requirements_txt: true, ..nothing() },
        Markers { src_tauri: true, ..nothing() },
        Markers { setup_cfg: true, ..nothing() },
    ];
    for markers in all {
        assert_eq!(
            rah::project::Project::looks_like_project(&markers),
            !rah::detection::detect(&markers).is_empty()
        );
    }
    assert!(!rah::project::Project::looks_like_project(&nothing()));
    assert!(rah::project::Project::looks_like_project(&Markers { go_mod: true, ..nothing() }));
}
