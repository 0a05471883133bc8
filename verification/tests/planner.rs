use cargo_workspaces::bump::{inc_major, inc_patch};
use cargo_workspaces::error::Error;
use cargo_workspaces::package::{Dependency, DependencyKind, Package, PackageConfig};
use cargo_workspaces::planner::{
    check_requirements, needs_new_version, plan, reference, Planned,
};
use cargo_workspaces::version::Version;
use std::cell::RefCell;

fn dep(name: &str, req: &str) -> Dependency {
    Dependency {
        name: name.to_string(),
        kind: DependencyKind::Normal,
        req: req.to_string(),
        path: Some(format!("/ws/{}", name)),
        rename: None,
        source: None,
    }
}

fn pkg(name: &str, version: &str, deps: Vec<Dependency>, independent: bool) -> Package {
    Package {
        id: format!("{} {}", name, version),
        name: name.to_string(),
        version: Version::parse(version).unwrap(),
        manifest_path: format!("/ws/{}/Cargo.toml", name),
        dependencies: deps,
        publish: None,
        config: PackageConfig { independent: if independent { Some(true) } else { None } },
        description: None,
        license: None,
        license_file: None,
        homepage: None,
        documentation: None,
        repository: None,
        keywords: vec![],
    }
}

fn entries(versions: &Vec<Planned>) -> Vec<(String, String, String)> {
    versions
        .iter()
        .map(|p| (p.name.clone(), p.previous.to_string(), p.version.to_string()))
        .collect()
}

fn triple(name: &str, previous: &str, version: &str) -> (String, String, String) {
    (name.to_string(), previous.to_string(), version.to_string())
}

#[test]
fn broken_requirement_draws_the_dependent_in() {
    let pkgs = vec![
        pkg("a", "0.5.0", vec![dep("b", "^1.0")], true),
        pkg("b", "1.0.0", vec![], true),
    ];
    let asked = RefCell::new(Vec::new());
    let result = plan(&pkgs, &vec!["b".to_string()], |name: &String, cur: &Version, _: bool| {
        asked.borrow_mut().push(name.clone());
        Some(inc_major(cur.clone()))
    })
    .unwrap();
    assert_eq!(*asked.borrow(), vec!["b".to_string(), "a".to_string()]);
    assert_eq!(
        entries(&result.versions),
        vec![triple("b", "1.0.0", "2.0.0"), triple("a", "0.5.0", "1.0.0")]
    );
    assert!(result.version.is_none());
    assert!(result.skipped.is_empty());
}

#[test]
fn admitted_version_leaves_the_dependent_out() {
    let pkgs = vec![
        pkg("a", "0.5.0", vec![dep("b", "^1.0")], true),
        pkg("b", "1.0.0", vec![], true),
    ];
    let result = plan(&pkgs, &vec!["b".to_string()], |_: &String, cur: &Version, _: bool| {
        Some(inc_patch(cur.clone()))
    })
    .unwrap();
    assert_eq!(entries(&result.versions), vec![triple("b", "1.0.0", "1.0.1")]);
}

#[test]
fn common_group_gets_one_version_from_the_highest() {
    let pkgs = vec![
        pkg("a", "1.2.0", vec![], false),
        pkg("b", "1.4.0", vec![], false),
        pkg("c", "0.1.0", vec![], true),
        pkg("d", "1.3.0", vec![], false),
    ];
    let asked = RefCell::new(Vec::new());
    let changed = vec!["a".to_string(), "b".to_string(), "c".to_string(), "d".to_string()];
    let result = plan(&pkgs, &changed, |_: &String, cur: &Version, independent: bool| {
        asked.borrow_mut().push((cur.to_string(), independent));
        Some(inc_patch(cur.clone()))
    })
    .unwrap();
    assert_eq!(
        *asked.borrow(),
        vec![("1.4.0".to_string(), false), ("0.1.0".to_string(), true)]
    );
    assert_eq!(
        entries(&result.versions),
        vec![
            triple("a", "1.2.0", "1.4.1"),
            triple("b", "1.4.0", "1.4.1"),
            triple("d", "1.3.0", "1.4.1"),
            triple("c", "0.1.0", "0.1.1"),
        ]
    );
    assert_eq!(result.version.unwrap().to_string(), "1.4.1");
}

#[test]
fn skipped_package_stays_out_and_blocks_nothing() {
    let pkgs = vec![
        pkg("a", "1.0.0", vec![], true),
        pkg("b", "2.0.0", vec![], true),
    ];
    let changed = vec!["a".to_string(), "b".to_string()];
    let result = plan(&pkgs, &changed, |name: &String, cur: &Version, _: bool| {
        if name == "a" {
            None
        } else {
            Some(inc_patch(cur.clone()))
        }
    })
    .unwrap();
    assert_eq!(entries(&result.versions), vec![triple("b", "2.0.0", "2.0.1")]);
    assert_eq!(result.skipped, vec![0]);
}

#[test]
fn propagation_runs_to_the_end_of_a_chain() {
    let pkgs = vec![
        pkg("a", "1.0.0", vec![dep("b", "=1.0.0")], true),
        pkg("b", "1.0.0", vec![dep("c", "=1.0.0")], true),
        pkg("c", "1.0.0", vec![], true),
        pkg("d", "1.0.0", vec![dep("c", ">=1.0.0")], true),
    ];
    let result = plan(&pkgs, &vec!["c".to_string()], |_: &String, cur: &Version, _: bool| {
        Some(inc_patch(cur.clone()))
    })
    .unwrap();
    assert_eq!(
        entries(&result.versions),
        vec![
            triple("c", "1.0.0", "1.0.1"),
            triple("b", "1.0.0", "1.0.1"),
            triple("a", "1.0.0", "1.0.1"),
        ]
    );
}

#[test]
fn nothing_changed_gives_an_empty_plan() {
    let pkgs = vec![pkg("a", "1.0.0", vec![], false)];
    let result = plan(&pkgs, &vec![], |_: &String, cur: &Version, _: bool| {
        Some(inc_patch(cur.clone()))
    })
    .unwrap();
    assert!(result.versions.is_empty());
    assert!(result.version.is_none());
}

#[test]
fn unreadable_requirement_fails() {
    let pkgs = vec![pkg("a", "1.0.0", vec![dep("b", "not a requirement")], false)];
    let result = plan(&pkgs, &vec![], |_: &String, cur: &Version, _: bool| {
        Some(inc_patch(cur.clone()))
    });
    assert!(matches!(result, Err(Error::Semver(_))));
    assert!(matches!(check_requirements(&pkgs), Err(Error::Semver(_))));
}

#[test]
fn reference_is_the_last_of_the_highest() {
    let pkgs = vec![
        pkg("a", "1.0.0+one", vec![], false),
        pkg("b", "1.0.0+two", vec![], false),
        pkg("c", "1.0.0-rc.1", vec![], false),
        pkg("d", "9.0.0", vec![], true),
    ];
    assert_eq!(reference(&pkgs, &vec![0, 1, 2, 3]), Some(1));
    assert_eq!(reference(&pkgs, &vec![2]), Some(2));
    assert_eq!(reference(&pkgs, &vec![3]), None);
}

#[test]
fn needs_new_version_looks_at_planned_dependencies_only() {
    let a = pkg("a", "0.5.0", vec![dep("b", "^1.0"), dep("c", "^3")], true);
    let planned = vec![Planned {
        index: 1,
        name: "b".to_string(),
        version: Version::parse("2.0.0").unwrap(),
        previous: Version::parse("1.0.0").unwrap(),
    }];
    assert!(needs_new_version(&a, &planned));
    let planned = vec![Planned {
        index: 1,
        name: "b".to_string(),
        version: Version::parse("1.9.0").unwrap(),
        previous: Version::parse("1.0.0").unwrap(),
    }];
    assert!(!needs_new_version(&a, &planned));
}
