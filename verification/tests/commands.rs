use cargo_workspaces::commands::{
    exists_in_glob_list, find_pkg, in_order, needs_rename, sorted, Create, Edition, Exec, Init,
    New, Rename, Resolver,
};
use cargo_workspaces::error::Error;
use cargo_workspaces::globs::{glob_allows, is_set_apart};
use cargo_workspaces::listing::Pkg;
use cargo_workspaces::package::{Dependency, DependencyKind, Package, PackageConfig};
use cargo_workspaces::tables::RenameMap;
use cargo_workspaces::version::Version;

fn pkg(name: &str) -> Pkg {
    Pkg {
        id: format!("{} 0.1.0", name),
        name: name.to_string(),
        version: Version::new(0, 1, 0),
        location: format!("/ws/{}", name),
        path: name.to_string(),
        private: false,
        config: PackageConfig { independent: None },
    }
}

fn package(name: &str, manifest_path: &str, dependencies: Vec<&str>) -> Package {
    Package {
        id: format!("{} 0.1.0", name),
        name: name.to_string(),
        version: Version::new(0, 1, 0),
        manifest_path: manifest_path.to_string(),
        dependencies: dependencies
            .into_iter()
            .map(|d| Dependency {
                name: d.to_string(),
                kind: DependencyKind::Normal,
                req: "*".to_string(),
                path: None,
                rename: None,
                source: None,
            })
            .collect(),
        publish: None,
        config: PackageConfig { independent: None },
        description: None,
        license: None,
        license_file: None,
        homepage: None,
        documentation: None,
        repository: None,
        keywords: vec![],
    }
}

fn rename(from: Option<&str>, to: &str, ignore: Option<&str>) -> Rename {
    Rename {
        all: false,
        ignore: ignore.map(|s| s.to_string()),
        from: from.map(|s| s.to_string()),
        to: to.to_string(),
    }
}

fn texts(list: &[&str]) -> Vec<String> {
    list.iter().map(|s| s.to_string()).collect()
}

#[test]
fn one_package_is_renamed_by_its_name() {
    let pkgs = vec![pkg("core"), pkg("cli")];
    let map = rename(Some("cli"), "tool", None).rename_map(&pkgs).unwrap();
    assert_eq!(map.get("cli"), Some(&"tool".to_string()));
    assert_eq!(map.get("core"), None);
    match rename(Some("gui"), "tool", None).rename_map(&pkgs) {
        Err(Error::PackageNotFound { id }) => assert_eq!(id, "gui"),
        other => panic!("{:?}", other),
    }
    assert!(rename(Some("cli"), "tool", None).includes_private());
    assert!(!rename(None, "x-%n", None).includes_private());
}

#[test]
fn all_packages_are_renamed_by_a_pattern() {
    let pkgs = vec![pkg("core"), pkg("cli"), pkg("core-extra")];
    let map = rename(None, "ws-%n-%n", Some("c*i")).rename_map(&pkgs).unwrap();
    assert_eq!(map.get("core"), Some(&"ws-core-core".to_string()));
    assert_eq!(map.get("core-extra"), Some(&"ws-core-extra-core-extra".to_string()));
    assert_eq!(map.get("cli"), None);
    match rename(None, "ws-name", None).rename_map(&pkgs) {
        Err(Error::MustContainPercentN(what)) => assert_eq!(what, "<TO>"),
        other => panic!("{:?}", other),
    }
}

#[test]
fn manifests_are_rewritten_where_a_name_occurs() {
    let mut map = RenameMap::new();
    map.insert("core".to_string(), "ws-core".to_string());
    assert!(needs_rename(&package("core", "/ws/core/Cargo.toml", vec![]), &map));
    assert!(needs_rename(&package("cli", "/ws/cli/Cargo.toml", vec!["serde", "core"]), &map));
    assert!(!needs_rename(&package("cli", "/ws/cli/Cargo.toml", vec!["serde"]), &map));
    assert!(map.contains_key("core"));
    assert!(!map.contains_key("cli"));
}

#[test]
fn packages_are_put_in_the_order_of_the_ids() {
    let pkgs = vec![pkg("a"), pkg("b"), pkg("c")];
    let ordered = in_order(&texts(&["c 0.1.0", "x 0.1.0", "a 0.1.0"]), &pkgs);
    let names: Vec<&str> = ordered.iter().map(|p| p.name.as_str()).collect();
    assert_eq!(names, vec!["c", "a"]);
    assert_eq!(find_pkg(&pkgs, "b 0.1.0"), Some(1));
    assert_eq!(find_pkg(&pkgs, "b"), None);
}

#[test]
fn command_runs_where_it_is_not_ignored() {
    let exec = Exec {
        no_bail: false,
        ignore: Some("*-extra".to_string()),
        ignore_private: false,
        args: texts(&["ls"]),
    };
    assert!(exec.is_ignored("core-extra"));
    assert!(!exec.is_ignored("core"));
    assert_eq!(
        Exec::directory(&package("core", "/ws/core/Cargo.toml", vec![])).unwrap(),
        "/ws/core"
    );
    match Exec::directory(&package("core", "", vec![])) {
        Err(Error::ManifestHasNoParent(name)) => assert_eq!(name, "core"),
        other => panic!("{:?}", other),
    }
}

#[test]
fn failure_ends_the_run_unless_told_to_go_on() {
    let mut exec = Exec { no_bail: false, ignore: None, ignore_private: false, args: texts(&["ls"]) };
    assert_eq!(exec.after(true, false).unwrap(), false);
    assert_eq!(exec.after(true, true).unwrap(), true);
    assert!(matches!(exec.after(false, false), Err(Error::Bail)));
    exec.no_bail = true;
    assert_eq!(exec.after(false, false).unwrap(), true);
    assert!(Exec::finish(false).is_ok());
    assert!(matches!(Exec::finish(true), Err(Error::Bail)));
}

#[test]
fn globs_set_names_apart() {
    assert!(is_set_apart(&Some("c*".to_string()), "cli"));
    assert!(!is_set_apart(&Some("c*".to_string()), "gui"));
    assert!(!is_set_apart(&Some("[".to_string()), "["));
    assert!(!is_set_apart(&None, "cli"));
    assert!(glob_allows("release-*", "release-1").unwrap());
    assert!(!glob_allows("release-*", "main").unwrap());
    assert!(matches!(glob_allows("[", "main"), Err(Error::GlobPattern(_))));
}

#[test]
fn first_matching_pattern_is_found() {
    let patterns = texts(&["crates/*", "tools/**", "crates/core"]);
    assert_eq!(
        exists_in_glob_list("/ws", &patterns, "/ws/crates/core").unwrap(),
        Some(&"crates/*".to_string())
    );
    assert_eq!(
        exists_in_glob_list("/ws", &patterns, "/ws/tools/a/b").unwrap(),
        Some(&"tools/**".to_string())
    );
    assert_eq!(exists_in_glob_list("/ws", &patterns, "/ws/other").unwrap(), None);
    assert_eq!(exists_in_glob_list("/ws", &vec![], "/ws/other").unwrap(), None);
    assert!(matches!(
        exists_in_glob_list("/ws", &texts(&["a", "["]), "/ws/b"),
        Err(Error::GlobPattern(_))
    ));
    assert_eq!(
        exists_in_glob_list("/ws", &texts(&["a", "["]), "/ws/a").unwrap(),
        Some(&"a".to_string())
    );
}

#[test]
fn new_package_must_not_be_excluded() {
    let exclude = texts(&["vendor/*", "old"]);
    assert!(Create::check_excluded("/ws", &exclude, "/ws/crates/tool").is_ok());
    assert!(Create::check_excluded("/ws", &vec![], "/ws/old").is_ok());
    match Create::check_excluded("/ws", &exclude, "/ws/vendor/tool") {
        Err(Error::InWorkspaceExclude(pattern)) => assert_eq!(pattern, "vendor/*"),
        other => panic!("{:?}", other),
    }
    assert!(matches!(
        Create::check_excluded("/ws", &texts(&["["]), "/ws/tool"),
        Err(Error::GlobPattern(_))
    ));
    assert!(Create::is_member("/ws", &texts(&["crates/*"]), "/ws/crates/tool").unwrap());
    assert!(!Create::is_member("/ws", &texts(&["crates/*"]), "/ws/tool").unwrap());
    assert!(!Create::is_member("/ws", &vec![], "/ws/tool").unwrap());
    assert!(matches!(
        Create::is_member("/ws", &texts(&["[", "tool"]), "/ws/tool"),
        Err(Error::GlobPattern(_))
    ));
}

#[test]
fn new_package_is_made_by_cargo() {
    assert_eq!(
        Create::new_args("tool", Edition::TwentyOne, false, "/ws/tool"),
        vec!["new", "--name", "tool", "--edition", "2021", "--bin", "/ws/tool"]
    );
    assert_eq!(
        Create::new_args("core", Edition::Fifteen, true, "/ws/core"),
        vec!["new", "--name", "core", "--edition", "2015", "--lib", "/ws/core"]
    );
    assert_eq!(Edition::Eighteen.name(), "2018");
    assert_eq!(Edition::TwentyFour.name(), "2024");
    let create = |bin: bool, lib: bool| Create {
        path: "tool".to_string(),
        edition: None,
        bin,
        lib,
        name: None,
    };
    assert!(create(false, true).is_library(false));
    assert!(!create(true, false).is_library(true));
    assert!(create(false, false).is_library(true));
    assert!(!create(false, false).is_library(false));
}

#[test]
fn output_of_cargo_new_is_checked() {
    assert!(Create::check_created("", "     Created binary (application) `tool` package").is_ok());
    assert!(Create::check_created("", "    Creating library `core` package").is_ok());
    assert!(matches!(Create::check_created("", "error: destination exists"), Err(Error::Create)));
    assert!(matches!(
        Create::check_created("", "Created\nerror: two packages named `tool`"),
        Err(Error::DuplicatePackageName)
    ));
    assert!(matches!(
        Create::check_created("two packages", "Created"),
        Err(Error::DuplicatePackageName)
    ));
}

#[test]
fn texts_are_sorted() {
    assert_eq!(sorted(&texts(&["b", "a", "c", "a", "B", "ab"])), vec!["B", "a", "a", "ab", "b", "c"]);
    assert_eq!(sorted(&vec![]), Vec::<String>::new());
}

#[test]
fn paths_that_are_there_are_arranged() {
    let stripped = vec![
        Some("tools/b".to_string()),
        None,
        Some("a".to_string()),
        Some("".to_string()),
        None,
        Some("a".to_string()),
    ];
    assert_eq!(Init::arranged(&stripped), vec!["", "a", "a", "tools/b"]);
    assert_eq!(Init::arranged(&vec![None, None]), Vec::<String>::new());
    assert_eq!(Init::arranged(&vec![]), Vec::<String>::new());
}

#[test]
fn members_are_the_roots_under_the_workspace() {
    let roots = texts(&["/ws/tools/b", "/elsewhere/x", "/ws/a", "/ws"]);
    assert_eq!(Init::members(&roots, "/ws"), vec!["", "a", "tools/b"]);
    assert_eq!(Init::decoration(0, 3), ("\n    ", ""));
    assert_eq!(Init::decoration(2, 3), ("\n    ", ",\n"));
    assert_eq!(Init::decoration(0, 1), ("\n    ", ",\n"));
    assert_eq!(Init::decoration(0, 0), ("\n    ", ""));
}

#[test]
fn resolvers_have_names() {
    assert_eq!(Resolver::V1.name(), "1");
    assert_eq!(Resolver::V2.name(), "2");
    assert_eq!(Resolver::V3.name(), "3");
    let new = |resolver| New { path: "ws".to_string(), resolver };
    assert_eq!(new(None).resolver(), Resolver::V3);
    assert_eq!(new(Some(Resolver::V1)).resolver(), Resolver::V1);
}
