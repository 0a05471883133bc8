use cargo_workspaces::graph::{dag, filter_private, find_package, find_target, ins};
use cargo_workspaces::package::{Dependency, DependencyKind, Package, PackageConfig};
use cargo_workspaces::version::Version;
use indexmap::IndexSet;

fn dep(name: &str, kind: DependencyKind, path: Option<&str>) -> Dependency {
    Dependency {
        name: name.to_string(),
        kind,
        req: "^1.0".to_string(),
        path: path.map(|p| p.to_string()),
        rename: None,
        source: if path.is_some() { None } else { Some("registry".to_string()) },
    }
}

fn pkg(name: &str, deps: Vec<Dependency>, private: bool) -> (Package, String) {
    let package = Package {
        id: format!("{} 1.0.0", name),
        name: name.to_string(),
        version: Version::new(1, 0, 0),
        manifest_path: format!("/ws/{}/Cargo.toml", name),
        dependencies: deps,
        publish: if private { Some(vec![]) } else { None },
        config: PackageConfig { independent: None },
        description: None,
        license: None,
        license_file: None,
        homepage: None,
        documentation: None,
        repository: None,
        keywords: vec![],
    };
    (package, "1.0.0".to_string())
}

fn order(set: &IndexSet<String>) -> Vec<String> {
    set.iter().cloned().collect()
}

#[test]
fn dependency_comes_first() {
    let pkgs = vec![
        pkg("a", vec![dep("b", DependencyKind::Normal, Some("/ws/b"))], false),
        pkg("b", vec![], false),
    ];
    let visited = dag(&pkgs);
    assert_eq!(order(&visited), vec!["/ws/b/Cargo.toml", "/ws/a/Cargo.toml"]);
}

#[test]
fn build_dependency_comes_first() {
    let pkgs = vec![
        pkg("a", vec![dep("c", DependencyKind::Build, Some("/ws/c"))], false),
        pkg("b", vec![], false),
        pkg("c", vec![dep("b", DependencyKind::Normal, Some("/ws/b"))], false),
    ];
    let visited = dag(&pkgs);
    assert_eq!(
        order(&visited),
        vec!["/ws/b/Cargo.toml", "/ws/c/Cargo.toml", "/ws/a/Cargo.toml"]
    );
}

#[test]
fn development_dependency_does_not_order() {
    let pkgs = vec![
        pkg("a", vec![dep("b", DependencyKind::Development, Some("/ws/b"))], false),
        pkg("b", vec![], false),
    ];
    let visited = dag(&pkgs);
    assert_eq!(order(&visited), vec!["/ws/a/Cargo.toml", "/ws/b/Cargo.toml"]);
}

#[test]
fn registry_dependency_of_a_member_name_is_no_edge() {
    let pkgs = vec![
        pkg("a", vec![dep("b", DependencyKind::Normal, None)], false),
        pkg("b", vec![dep("a", DependencyKind::Normal, Some("/ws/a"))], false),
    ];
    assert_eq!(find_target(&pkgs, &pkgs[0].0.dependencies[0]), None);
    assert_eq!(find_target(&pkgs, &pkgs[1].0.dependencies[0]), Some(0));
    let visited = dag(&pkgs);
    assert_eq!(order(&visited), vec!["/ws/a/Cargo.toml", "/ws/b/Cargo.toml"]);
}

#[test]
fn package_that_names_itself_from_the_registry_is_listed_once() {
    let pkgs = vec![pkg("a", vec![dep("a", DependencyKind::Normal, None)], false)];
    let visited = dag(&pkgs);
    assert_eq!(order(&visited), vec!["/ws/a/Cargo.toml"]);
}

#[test]
fn cycle_ends_and_lists_every_package_once() {
    let pkgs = vec![
        pkg("a", vec![dep("b", DependencyKind::Normal, Some("/ws/b"))], false),
        pkg("b", vec![dep("a", DependencyKind::Normal, Some("/ws/a"))], false),
    ];
    let visited = dag(&pkgs);
    assert_eq!(order(&visited), vec!["/ws/b/Cargo.toml", "/ws/a/Cargo.toml"]);
}

#[test]
fn shared_dependency_is_listed_once() {
    let pkgs = vec![
        pkg(
            "a",
            vec![
                dep("c", DependencyKind::Normal, Some("/ws/c")),
                dep("b", DependencyKind::Normal, Some("/ws/b")),
            ],
            false,
        ),
        pkg("b", vec![dep("c", DependencyKind::Normal, Some("/ws/c"))], false),
        pkg("c", vec![], false),
    ];
    let visited = dag(&pkgs);
    assert_eq!(
        order(&visited),
        vec!["/ws/c/Cargo.toml", "/ws/b/Cargo.toml", "/ws/a/Cargo.toml"]
    );
}

#[test]
fn ins_keeps_what_is_listed() {
    let pkgs = vec![
        pkg("a", vec![dep("b", DependencyKind::Normal, Some("/ws/b"))], false),
        pkg("b", vec![], false),
    ];
    let mut visited = IndexSet::new();
    ins(&pkgs, 1, &mut visited);
    assert_eq!(order(&visited), vec!["/ws/b/Cargo.toml"]);
    ins(&pkgs, 0, &mut visited);
    ins(&pkgs, 1, &mut visited);
    assert_eq!(order(&visited), vec!["/ws/b/Cargo.toml", "/ws/a/Cargo.toml"]);
}

#[test]
fn private_packages_are_filtered_in_order() {
    let pkgs = vec![
        pkg("a", vec![dep("b", DependencyKind::Normal, Some("/ws/b"))], false),
        pkg("b", vec![dep("c", DependencyKind::Normal, Some("/ws/c"))], true),
        pkg("c", vec![], false),
    ];
    let visited = dag(&pkgs);
    assert_eq!(
        order(&visited),
        vec!["/ws/c/Cargo.toml", "/ws/b/Cargo.toml", "/ws/a/Cargo.toml"]
    );
    let public = filter_private(visited, &pkgs);
    assert_eq!(order(&public), vec!["/ws/c/Cargo.toml", "/ws/a/Cargo.toml"]);
}

#[test]
fn unknown_paths_are_filtered() {
    let pkgs = vec![pkg("a", vec![], false)];
    let mut visited = IndexSet::new();
    visited.insert("/elsewhere/Cargo.toml".to_string());
    visited.insert("/ws/a/Cargo.toml".to_string());
    let public = filter_private(visited, &pkgs);
    assert_eq!(order(&public), vec!["/ws/a/Cargo.toml"]);
    assert_eq!(find_package(&pkgs, "/ws/a/Cargo.toml"), Some(0));
    assert_eq!(find_package(&pkgs, "/elsewhere/Cargo.toml"), None);
}
