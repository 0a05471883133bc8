use cargo_workspaces::changes::{changed_by, changed_files, ChangeOpt};
use cargo_workspaces::commands::{Create, Exec, Resolver};
use cargo_workspaces::workspace::{has_key, init_manifest, member_manifest, patterns};
use cargo_workspaces::git::{Check, GitOpt};
use cargo_workspaces::devdeps::without_dev_deps;
use cargo_workspaces::error::Error;
use cargo_workspaces::globs::{
    check_pattern, glob_allows, is_fitting_glob, is_fitting_pattern, is_set_apart,
};
use cargo_workspaces::versioning::{confirm_versions, root_versions};
use cargo_workspaces::listing::Pkg;
use cargo_workspaces::manifest::{
    between, edit_name, edit_own_version, edit_package_key, edit_to_inline_table,
    package_key_line, rename_packages,
};
use cargo_workspaces::package::{
    Dependency, DependencyKind, Package, PackageConfig, WorkspaceConfig,
};
use cargo_workspaces::planner::plan;
use cargo_workspaces::publish::should_remove_dev_deps;
use cargo_workspaces::tables::{RenameMap, VersionMap};
use cargo_workspaces::requirement::has_fitting_numbers;
use cargo_workspaces::version::{asks_for_any, has_few_hyphens, Version};

fn member(name: &str, version: &str, deps: Vec<Dependency>) -> Package {
    Package {
        id: format!("{} {}", name, version),
        name: name.to_string(),
        version: Version::parse(version).unwrap(),
        manifest_path: format!("/ws/{}/Cargo.toml", name),
        dependencies: deps,
        publish: None,
        config: PackageConfig { independent: Some(true) },
        description: None,
        license: None,
        license_file: None,
        homepage: None,
        documentation: None,
        repository: None,
        keywords: vec![],
    }
}

fn on(name: &str, req: &str, kind: DependencyKind) -> Dependency {
    Dependency {
        name: name.to_string(),
        kind,
        req: req.to_string(),
        path: Some(format!("/ws/{}", name)),
        rename: None,
        source: None,
    }
}

const MAX: &str = "18446744073709551615";
const OVER: &str = "18446744073709551616";

#[test]
fn numbers_that_semver_takes_fit() {
    for req in [
        "",
        "*",
        "^1.2.3",
        ">=18446744073709551615.0.0",
        ">18446744073709551615.18446744073709551615.18446744073709551615",
        "<18446744073709551615",
        ">= 18446744073709551615",
        "=18446744073709551615.18446744073709551615.18446744073709551615",
        "<=0.0.18446744073709551615",
        "1.2.3-12345678901234567890",
        "1.2.3-99999999999999999999",
        "1.2.3+99999999999999999999",
        "1.2.3-alpha.99999999999999999999",
        "x.99999999999999999999",
        "1.x.99999999999999999999",
        "*.18446744073709551615",
        "^0",
        "^0.0",
        "0.18446744073709551614",
        "^0.1.18446744073709551615",
        "^1.18446744073709551615.18446744073709551615",
        "~1.0.18446744073709551615",
        "18446744073709551615 - 18446744073709551615.0.0",
        "18446744073709551615.0.0 - 1.2.3",
        "1.2.3 - 18446744073709551615.18446744073709551615.18446744073709551615",
        "18446744073709551614",
        "a99999999999999999999",
        "1,99999999999999999999",
    ] {
        assert!(has_fitting_numbers(req), "{}", req);
    }
}

#[test]
fn numbers_that_semver_stops_on_do_not_fit() {
    for req in [
        "18446744073709551616",
        "99999999999999999999",
        ">=1.99999999999999999999",
        ">=1.0, <1.99999999999999999999",
        "<1.2.18446744073709551616",
        "1.2.3 - 99999999999999999999",
        "1.0 || 99999999999999999999",
        "^18446744073709551615",
        "18446744073709551615",
        "18446744073709551615.1.2",
        "=18446744073709551615",
        "<= 1.18446744073709551615",
        "~18446744073709551615",
        "~>1.18446744073709551615.0",
        "0.18446744073709551615",
        "^0.0.18446744073709551615",
        "0.0.18446744073709551615",
        "1 - 18446744073709551615",
        "1 - 2.18446744073709551615",
        "1.2.3\t-\t18446744073709551615",
    ] {
        assert!(!has_fitting_numbers(req), "{}", req);
    }
}

#[test]
fn no_requirement_stops_the_reading() {
    let version = Version::new(1, 0, 0);
    let signs = ["", "^", "~", "~>", "=", "<", "<=", ">", ">=", "^ ", "<= ", "1 - ", "1.2.3-a- "];
    let numbers = ["0", "1", MAX, OVER, "00000000000000000000000001"];
    let tails = ["", " - 2", " - 2.0.0", ", 1", " || 1", "-rc.1", "+7", " -2", "- 2"];
    let mut read = 0;
    let mut refused = 0;
    for sign in signs {
        for a in numbers {
            for b in ["", ".0", ".1", ".x", ".*", MAX, OVER].iter().map(|b| {
                if b.starts_with('.') || b.is_empty() { b.to_string() } else { format!(".{}", b) }
            }) {
                for c in ["", ".0", ".1", ".X", ".18446744073709551615", ".18446744073709551616"] {
                    for tail in tails {
                        let req = format!("{}{}{}{}{}", sign, a, b, c, tail);
                        match version.meets(&req) {
                            Ok(_) => read += 1,
                            Err(Error::NumberTooLarge(_)) => refused += 1,
                            Err(_) => (),
                        }
                    }
                }
            }
        }
    }
    assert!(read > 1000);
    assert!(refused > 1000);
}

#[test]
fn hyphens_are_counted_by_identifier() {
    assert!(has_few_hyphens(""));
    assert!(has_few_hyphens("1.0.0-alpha-1"));
    assert!(has_few_hyphens(&"-".repeat(256)));
    assert!(!has_few_hyphens(&"-".repeat(257)));
    assert!(!has_few_hyphens(&"a-".repeat(300)));
    assert!(has_few_hyphens(&format!("1.0.0-{}", "a-b-c.".repeat(500))));
    assert!(has_few_hyphens(&format!("1.0.0+a{}", "-a".repeat(255))));
    assert!(!has_few_hyphens(&format!("1.0.0+a{}", "-a".repeat(256))));
    assert!(has_few_hyphens(&format!("1.0.0-a{}", "-a".repeat(255))));
    assert!(!has_few_hyphens(&format!("1.0.0-a{}", "-a".repeat(256))));
    assert!(has_few_hyphens(&format!("1.0.0-a{}+b{}", "-a".repeat(255), "-b".repeat(255))));
    assert!(!has_few_hyphens(&format!("1.0.0-a.b{}", "-b".repeat(256))));
}

#[test]
fn requirement_with_a_number_too_long_is_refused() {
    let version = Version::new(1, 0, 0);
    match version.meets("99999999999999999999") {
        Err(Error::NumberTooLarge(req)) => assert_eq!(req, "99999999999999999999"),
        other => panic!("{:?}", other.map_err(|_| ())),
    }
    assert!(matches!(version.meets("^1.99999999999999999999"), Err(Error::NumberTooLarge(_))));
    assert!(matches!(version.meets("1.2.00000000000000000001"), Err(Error::Semver(_))));
    assert!(matches!(version.meets("~~"), Err(Error::Semver(_))));
    assert!(!version.meets("^9999999999999999999").unwrap());
    assert!(!version.meets("9999999999999999999.9999999999999999999.9999999999999999999").unwrap());
    assert!(version.meets("<9999999999999999999").unwrap());
    assert!(!version.meets(">=18446744073709551615.0.0").unwrap());
    assert!(version.meets("<18446744073709551615.0.0").unwrap());
    assert!(!version.meets("1.2.3-12345678901234567890").unwrap());
    assert!(version.meets("x.99999999999999999999").unwrap());
    assert!(matches!(version.meets("^18446744073709551615"), Err(Error::NumberTooLarge(_))));
    assert!(matches!(version.meets("1.2.3-1a"), Err(Error::Semver(_))));
    assert!(version.meets("^1").unwrap());
    assert_eq!(
        Error::NumberTooLarge("9".repeat(20)).message().unwrap(),
        format!("a number is too large in the requirement {}", "9".repeat(20))
    );
}

#[test]
fn version_with_too_many_hyphens_is_refused() {
    let long = format!("1.0.0-a{}", "-a".repeat(256));
    match Version::parse(&long) {
        Err(Error::TooManyHyphens(text)) => assert_eq!(text, long),
        other => panic!("{:?}", other.map_err(|_| ())),
    }
    let fits = format!("1.0.0-a{}", "-a".repeat(255));
    let version = Version::parse(&fits).unwrap();
    assert_eq!(version.to_string(), fits);
    assert_eq!(version.pre.len(), 1);
    let spread = format!("1.0.0-a{}+b{}", "-a.a".repeat(200), "-b.b".repeat(200));
    let version = Version::parse(&spread).unwrap();
    assert_eq!(version.to_string(), spread);
    assert_eq!(version.pre.len(), 201);
    assert_eq!(version.build.len(), 201);
    assert!(matches!(
        Version::parse(&format!("1.0.0+b{}", "-b".repeat(256))),
        Err(Error::TooManyHyphens(_))
    ));
    assert!(Version::parse(&format!("1.0.0+b{}", "-b".repeat(255))).is_ok());
    assert!(matches!(Version::parse("1.0"), Err(Error::Version(_))));
    assert!(matches!(Version::parse(&"-".repeat(255)), Err(Error::Version(_))));
    assert_eq!(
        Error::TooManyHyphens("1-".to_string()).message().unwrap(),
        "too many hyphens in the version 1-"
    );
}

#[test]
fn only_the_wildcard_asks_for_any_version() {
    assert!(asks_for_any("*"));
    assert!(!asks_for_any("1.0"));
    assert!(!asks_for_any("~~"));
    assert!(!asks_for_any("99999999999999999999"));
}

#[test]
fn requirement_too_long_to_read_pins_nothing() {
    let pkgs = vec![(member("b", "1.0.0", vec![]), "1.0.0".to_string())];
    let pinned = on("b", "1.0", DependencyKind::Development);
    assert!(should_remove_dev_deps(&vec![pinned], &pkgs));
    let unread = on("b", "99999999999999999999", DependencyKind::Development);
    assert!(should_remove_dev_deps(&vec![unread], &pkgs));
    let any = on("b", "*", DependencyKind::Development);
    assert!(!should_remove_dev_deps(&vec![any], &pkgs));
}

#[test]
fn plan_refuses_a_requirement_with_a_number_too_long() {
    let pkgs = vec![
        member("a", "0.5.0", vec![on("b", "^1.99999999999999999999", DependencyKind::Normal)]),
        member("b", "1.0.0", vec![]),
    ];
    let result = plan(&pkgs, &vec!["b".to_string()], |_: &String, cur: &Version, _: bool| {
        Some(cur.clone())
    });
    assert!(matches!(result, Err(Error::NumberTooLarge(_))));
}

#[test]
fn rewriting_refuses_a_requirement_with_a_number_too_long() {
    let mut versions = VersionMap::new();
    versions.insert("this".to_string(), Version::new(0, 3, 0));
    let read = "[dependencies]\nthis = \">=18446744073709551615.0.0\"\n".to_string();
    assert_eq!(
        cargo_workspaces::manifest::change_versions(read, "other", &versions, false).unwrap(),
        "[dependencies]\nthis = \"0.3.0\"\n"
    );
    let manifest = "[dependencies]\nthis = \"0.99999999999999999999\"\n".to_string();
    assert!(matches!(
        cargo_workspaces::manifest::change_versions(manifest.clone(), "other", &versions, false),
        Err(Error::NumberTooLarge(_))
    ));
    assert_eq!(
        cargo_workspaces::manifest::change_versions(manifest, "other", &versions, true).unwrap(),
        "[dependencies]\nthis = \"=0.3.0\"\n"
    );
}

#[test]
fn pattern_too_long_sets_nothing_apart() {
    assert!(is_fitting_pattern(""));
    assert!(is_fitting_pattern(&"a".repeat(1000)));
    assert!(!is_fitting_pattern(&"a".repeat(1001)));
    assert!(is_fitting_pattern(&"é".repeat(1000)));
    let name = "a".repeat(1000);
    assert!(is_set_apart(&Some("a".repeat(1000)), &name));
    assert!(is_set_apart(&Some(format!("{}*", "a".repeat(999))), &name));
    assert!(!is_set_apart(&Some(format!("{}*", "a".repeat(1000))), &name));
    assert!(!is_set_apart(&Some("*".repeat(1001)), "a"));
    assert!(is_set_apart(&Some("*".to_string()), "a"));
    assert!(!is_set_apart(&None, "a"));
}

#[test]
fn package_changes_when_forced_or_when_a_counted_file_lies_under_it() {
    assert!(changed_by(true, &vec![], &vec![]));
    assert!(changed_by(true, &vec![true], &vec![false]));
    assert!(!changed_by(false, &vec![], &vec![]));
    assert!(!changed_by(false, &vec![true, false], &vec![true, false]));
    assert!(changed_by(false, &vec![true, false], &vec![true, true]));
    assert!(changed_by(false, &vec![false, true], &vec![true, true]));
    assert!(!changed_by(false, &vec![true, true], &vec![true, true]));
    assert!(!changed_by(false, &vec![false, false], &vec![false, false]));
    assert!(!changed_by(false, &vec![true, false], &vec![true]));
    assert!(!changed_by(false, &vec![false], &vec![]));
    assert!(changed_by(false, &vec![false], &vec![true, false]));
}

#[test]
fn ignoring_every_file_leaves_only_the_forced_packages() {
    let pkg = |name: &str| Pkg {
        id: format!("{} 0.1.0", name),
        name: name.to_string(),
        version: Version::new(0, 1, 0),
        location: format!("/ws/{}", name),
        path: name.to_string(),
        private: false,
        config: PackageConfig { independent: None },
    };
    let files = vec!["core/a.md".to_string(), "cli/b.md".to_string()];
    let opt = ChangeOpt {
        force: Some("cli".to_string()),
        ignore_changes: Some("**/*.md".to_string()),
        since: None,
    };
    assert!(opt.is_changed(&pkg("cli"), &files));
    assert!(!opt.is_changed(&pkg("core"), &files));
    let all = vec![pkg("core"), pkg("cli")];
    let (changed, unchanged) = opt.get_changed_pkgs(&all, &Some("core/a.md\ncli/b.md\n".to_string()));
    assert_eq!(changed.iter().map(|p| p.name.as_str()).collect::<Vec<_>>(), vec!["cli"]);
    assert_eq!(unchanged.iter().map(|p| p.name.as_str()).collect::<Vec<_>>(), vec!["core"]);
    let open = ChangeOpt { force: None, ignore_changes: Some("**/*.md".to_string()), since: None };
    assert!(!open.is_changed(&pkg("cli"), &files));
    assert!(open.is_changed(&pkg("cli"), &vec!["cli/src/main.rs".to_string()]));
    assert!(!open.is_changed(&pkg("cli"), &vec!["client/src/main.rs".to_string()]));
}

#[test]
fn file_names_are_split_at_line_feeds_alone() {
    assert_eq!(changed_files("a\r\nb\n"), vec!["a\r", "b"]);
    assert_eq!(changed_files("a\rb"), vec!["a\rb"]);
    assert_eq!(changed_files("\r\n"), vec!["\r"]);
    assert_eq!(changed_files("x/y\n\n\nz"), vec!["x/y", "z"]);
}

#[test]
fn nothing_is_planned_without_cause() {
    let pkgs = vec![
        member("a", "0.5.0", vec![on("b", "^1.0", DependencyKind::Normal)]),
        member("b", "1.0.0", vec![]),
        member("c", "0.1.0", vec![on("b", ">=1", DependencyKind::Normal)]),
        member("d", "0.1.0", vec![on("c", "^0.1", DependencyKind::Normal)]),
        member("e", "3.0.0", vec![]),
    ];
    let result = plan(&pkgs, &vec!["b".to_string()], |_: &String, cur: &Version, _: bool| {
        Some(Version::new(cur.major + 1, 0, 0))
    })
    .unwrap();
    let planned: Vec<&str> = result.versions.iter().map(|p| p.name.as_str()).collect();
    assert_eq!(planned, vec!["b", "a"]);
    assert!(result.skipped.is_empty());
}

#[test]
fn other_tables_keep_their_keys() {
    let manifest = "[package]\nname = \"foo\"\n\n[package.metadata]\ndev-dependencies = \"kept\"\n\n[dev-dependencies]\ndep1 = \"1\"\n\n[dev-dependencies.dep2]\nversion = \"2\"\n\n[features]\ndev-dependencies = []\n\n[target.unix]\nrunner = \"x\"\n\n[target.unix.dev-dependencies]\ndep3 = \"3\"\n\n[target.unix.build-dependencies]\ncc = \"1\"\n";
    assert_eq!(
        without_dev_deps(manifest).unwrap(),
        "[package]\nname = \"foo\"\n\n[package.metadata]\ndev-dependencies = \"kept\"\n\n[features]\ndev-dependencies = []\n\n[target.unix]\nrunner = \"x\"\n\n[target.unix.build-dependencies]\ncc = \"1\"\n"
    );
}

#[test]
fn listed_path_is_part_of_the_manifest_path() {
    let pkg = member("a", "0.1.0", vec![]);
    let listed = Pkg::from_package(&pkg, "/ws").unwrap();
    assert_eq!(listed.path, "a");
    assert_eq!(listed.location, "/ws/a");
    assert!(pkg.manifest_path.contains(&listed.path));
    let mut deep = member("b", "0.1.0", vec![]);
    deep.manifest_path = "/ws/crates/b/Cargo.toml".to_string();
    let listed = Pkg::from_package(&deep, "/ws").unwrap();
    assert_eq!(listed.path, "crates/b");
    assert_eq!(listed.location, "/ws/crates/b");
    let mut top = member("c", "0.1.0", vec![]);
    top.manifest_path = "/ws/Cargo.toml".to_string();
    let listed = Pkg::from_package(&top, "/ws").unwrap();
    assert_eq!(listed.path, "");
    assert!(matches!(
        Pkg::from_package(&top, "/elsewhere"),
        Err(Error::PackageNotInWorkspace { .. })
    ));
}

#[test]
fn captured_parts_are_put_together_with_the_new_name() {
    let mut renames = RenameMap::new();
    renames.insert("this".to_string(), "ra_this".to_string());
    assert_eq!(between("a", "b", "c"), "abc");
    assert_eq!(between("", "", ""), "");
    assert_eq!(package_key_line("ra_this"), "package = \"ra_this\"");
    assert_eq!(
        edit_to_inline_table(&renames, "this", "this = ", "\"0.0.1\"", " # hello").unwrap().unwrap(),
        "this = { version = \"0.0.1\", package = \"ra_this\" } # hello"
    );
    assert!(edit_to_inline_table(&renames, "that", "that = ", "\"0.0.1\"", "").unwrap().is_none());
    assert_eq!(
        edit_name(&renames, "this", "name = \"", "\" # own").unwrap().unwrap(),
        "name = \"ra_this\" # own"
    );
    assert!(edit_name(&renames, "ra_this", "name = \"", "\"").unwrap().is_none());
    assert_eq!(
        edit_package_key(&renames, "this", "this = { path = \"../\"", " } # x").unwrap().unwrap(),
        "this = { path = \"../\", package = \"ra_this\" } # x"
    );
    assert!(edit_package_key(&renames, "other", "other = { path = \"../\"", " }").unwrap().is_none());
    let mut versions = VersionMap::new();
    versions.insert("this".to_string(), Version::parse("0.3.0-rc.1").unwrap());
    assert_eq!(
        edit_own_version(&versions, "this", "version = '", "' # v").unwrap().unwrap(),
        "version = '0.3.0-rc.1' # v"
    );
    assert!(edit_own_version(&versions, "that", "version = '", "'").unwrap().is_none());
    assert_eq!(
        rename_packages("[dependencies]\nthis = \"0.0.1\" # hello\n".to_string(), "x", &renames)
            .unwrap(),
        "[dependencies]\nthis = { version = \"0.0.1\", package = \"ra_this\" } # hello\n"
    );
}

#[test]
fn listing_entry_takes_its_place_as_it_is_given() {
    let pkg = member("a", "0.1.0", vec![]);
    let place = Some(("crates/a".to_string(), "/ws/crates/a".to_string()));
    let listed = Pkg::entry(&pkg, "/ws", place).unwrap();
    assert_eq!(listed.id, "a 0.1.0");
    assert_eq!(listed.name, "a");
    assert_eq!(listed.version.to_string(), "0.1.0");
    assert_eq!(listed.path, "crates/a");
    assert_eq!(listed.location, "/ws/crates/a");
    assert!(!listed.private);
    match Pkg::entry(&pkg, "/ws", None) {
        Err(Error::PackageNotInWorkspace { id, ws }) => {
            assert_eq!(id, "a 0.1.0");
            assert_eq!(ws, "/ws");
        }
        _ => panic!("an entry without a place"),
    }
}

#[test]
fn directory_is_the_parent_that_is_given() {
    let name = "a".to_string();
    assert_eq!(Exec::directory_from(&name, Some("/ws/a".to_string())).unwrap(), "/ws/a");
    assert_eq!(Exec::directory_from(&name, Some(String::new())).unwrap(), "");
    match Exec::directory_from(&name, None) {
        Err(Error::ManifestHasNoParent(pkg)) => assert_eq!(pkg, "a"),
        _ => panic!("a directory without a parent"),
    }
    assert_eq!(Exec::directory(&member("a", "0.1.0", vec![])).unwrap(), "/ws/a");
}

#[test]
fn deeply_nested_alternatives_set_nothing_apart() {
    let nested = |open: &str, inside: &str, levels: usize| {
        Some(format!("{}{}{}", open.repeat(levels), inside, "}".repeat(levels)))
    };
    assert!(is_set_apart(&nested("{", "a", 64), "a"));
    assert!(is_set_apart(&nested("{b,", "a", 64), "a"));
    assert!(is_set_apart(&nested("{b*,", "**/*", 64), "a"));
    assert!(is_set_apart(&nested("{b*,", "[!b]", 64), "a"));
    assert!(!is_set_apart(&nested("{", "a", 65), "a"));
    assert!(!is_set_apart(&nested("{", "a", 300), "a"));
    assert!(is_fitting_pattern(&"{".repeat(64)));
    assert!(!is_fitting_pattern(&"{".repeat(65)));
    assert!(is_fitting_pattern(&"}".repeat(65)));
}

#[test]
fn glob_too_long_is_an_error() {
    assert!(is_fitting_glob(&"*".repeat(1000)));
    assert!(!is_fitting_glob(&"*".repeat(1001)));
    assert!(glob_allows(&"*a".repeat(500), &"a".repeat(500)).unwrap());
    assert!(!glob_allows(&"*a".repeat(500), "b").unwrap());
    let long = format!("{}*", "a".repeat(1000));
    match glob_allows(&long, "a") {
        Err(Error::PatternTooLong(pattern)) => assert_eq!(pattern, long),
        _ => panic!("a pattern of 1001 characters"),
    }
    assert!(matches!(glob_allows("[", "a"), Err(Error::GlobPattern(_))));
    assert!(matches!(
        Create::is_member("/ws", &vec!["a".repeat(1000)], "/ws/a"),
        Err(Error::PatternTooLong(_))
    ));
    assert!(matches!(
        Create::check_excluded("/ws", &vec!["x".to_string(), "*".repeat(997)], "/ws/a"),
        Err(Error::PatternTooLong(_))
    ));
    assert!(!Create::is_member("/ws", &vec!["x".to_string(), "a".repeat(996)], "/ws/a").unwrap());
    assert_eq!(
        Error::PatternTooLong("a*".to_string()).message().unwrap(),
        "the pattern is too long: a*"
    );
}

#[test]
fn branch_pattern_too_long_is_an_error() {
    let opt = GitOpt {
        no_git_commit: false,
        allow_branch: Some("*".repeat(1001)),
        amend: false,
        message: None,
        no_git_tag: false,
        no_individual_tags: false,
        no_global_tag: false,
        tag_prefix: "v".to_string(),
        individual_tag_prefix: "%n@".to_string(),
        no_git_push: false,
        git_remote: "origin".to_string(),
    };
    let config = WorkspaceConfig { allow_branch: None, no_individual_tags: None };
    assert!(matches!(
        opt.validated(Check::Branch, "main", "", &config),
        Err(Error::PatternTooLong(_))
    ));
}

#[test]
fn pattern_can_be_checked_before_it_is_tried() {
    assert!(check_pattern(&None).is_ok());
    assert!(check_pattern(&Some("crates/*".to_string())).is_ok());
    assert!(check_pattern(&Some("a".repeat(1000))).is_ok());
    match check_pattern(&Some("a".repeat(1001))) {
        Err(Error::PatternTooLong(pattern)) => assert_eq!(pattern, "a".repeat(1001)),
        _ => panic!("a pattern of 1001 characters"),
    }
    assert!(matches!(check_pattern(&Some("{".repeat(65))), Err(Error::PatternTooLong(_))));
    assert!(check_pattern(&Some("[".to_string())).is_ok());
}

#[test]
fn dependency_of_unknown_kind_orders_nothing_but_is_read() {
    let pkgs = vec![
        member("a", "0.5.0", vec![on("b", "^1.0", DependencyKind::Unknown)]),
        member("b", "1.0.0", vec![]),
    ];
    let result = plan(&pkgs, &vec!["b".to_string()], |_: &String, cur: &Version, _: bool| {
        Some(Version::new(cur.major + 1, 0, 0))
    })
    .unwrap();
    let planned: Vec<&str> = result.versions.iter().map(|p| p.name.as_str()).collect();
    assert_eq!(planned, vec!["b", "a"]);
    let unread = vec![
        member("a", "0.5.0", vec![on("b", "~~", DependencyKind::Unknown)]),
        member("b", "1.0.0", vec![]),
    ];
    assert!(matches!(
        plan(&unread, &vec![], |_: &String, _: &Version, _: bool| None),
        Err(Error::Semver(_))
    ));
    let with_paths: Vec<(Package, String)> = pkgs
        .into_iter()
        .map(|p| {
            let path = p.manifest_path.clone();
            (p, path)
        })
        .collect();
    let order = cargo_workspaces::graph::dag(&with_paths);
    let names: Vec<String> = order.iter().cloned().collect();
    assert_eq!(names, vec!["/ws/a/Cargo.toml".to_string(), "/ws/b/Cargo.toml".to_string()]);
    assert!(!should_remove_dev_deps(&with_paths[0].0.dependencies, &with_paths));
}

#[test]
fn common_version_is_asked_for_with_the_highest_changed_package() {
    let mut pkgs = vec![
        member("a", "3.0.0", vec![]),
        member("b", "1.0.0", vec![]),
        member("c", "2.0.0", vec![]),
        member("d", "1.5.0", vec![on("b", "^1", DependencyKind::Normal)]),
    ];
    for p in pkgs.iter_mut() {
        p.config = PackageConfig { independent: None };
    }
    let asked = std::cell::RefCell::new(Vec::new());
    let result = plan(
        &pkgs,
        &vec!["b".to_string(), "c".to_string()],
        |name: &String, cur: &Version, independent: bool| {
            asked.borrow_mut().push((name.clone(), cur.to_string(), independent));
            Some(Version::new(cur.major + 1, 0, 0))
        },
    )
    .unwrap();
    assert_eq!(*asked.borrow(), vec![("c".to_string(), "2.0.0".to_string(), false)]);
    assert_eq!(result.version.unwrap().to_string(), "3.0.0");
    let planned: Vec<(String, String)> =
        result.versions.iter().map(|p| (p.name.clone(), p.version.to_string())).collect();
    assert_eq!(
        planned,
        vec![
            ("b".to_string(), "3.0.0".to_string()),
            ("c".to_string(), "3.0.0".to_string()),
            ("d".to_string(), "3.0.0".to_string()),
        ]
    );
}

#[test]
fn version_tables_come_in_the_order_of_the_names() {
    let pkgs = vec![member("zeta", "1.0.0", vec![]), member("alpha", "1.0.0", vec![])];
    let result = plan(
        &pkgs,
        &vec!["zeta".to_string(), "alpha".to_string()],
        |_: &String, cur: &Version, _: bool| Some(Version::new(cur.major, cur.minor + 1, 0)),
    )
    .unwrap();
    let table = confirm_versions(&result.versions);
    assert_eq!(table.len(), 2);
    assert_eq!(table.entry(0).0, "alpha");
    assert_eq!(table.entry(1).0, "zeta");
    let root = root_versions(&table, &Some(Version::new(9, 0, 0)));
    assert_eq!(root.len(), 3);
    assert_eq!(root.entry(0).0, "");
    assert_eq!(root.entry(0).1.to_string(), "9.0.0");
    assert_eq!(root.entry(1).0, "alpha");
    assert_eq!(root.entry(2).0, "zeta");
}

#[test]
fn workspace_manifest_is_made_from_nothing() {
    let members = vec!["a".to_string(), "crates/b".to_string()];
    assert_eq!(
        init_manifest(None, &members, Some(Resolver::V2)).unwrap(),
        "[workspace]\nmembers = [\n    \"a\",\n    \"crates/b\",\n]\nresolver = \"2\"\n"
    );
    assert_eq!(
        init_manifest(None, &vec![], None).unwrap(),
        "[workspace]\nmembers = []\n"
    );
}

#[test]
fn workspace_manifest_keeps_what_is_there() {
    let text = "# root\n[workspace]\nmembers = [\"old\"]\nresolver = \"1\"\n\n[profile.dev]\ndebug = 1\n";
    assert_eq!(
        init_manifest(Some(text.to_string()), &vec!["new".to_string()], Some(Resolver::V3)).unwrap(),
        "# root\n[workspace]\nmembers = [\"old\",\n    \"new\",\n]\nresolver = \"1\"\n\n[profile.dev]\ndebug = 1\n"
    );
    let bare = "[package]\nname = \"x\"\n";
    assert_eq!(
        init_manifest(Some(bare.to_string()), &vec!["x".to_string()], Some(Resolver::V1)).unwrap(),
        "[package]\nname = \"x\"\n\n[workspace]\nmembers = [\n    \"x\",\n]\nresolver = \"1\"\n"
    );
}

#[test]
fn workspace_manifest_of_another_shape_is_an_error() {
    assert!(matches!(init_manifest(Some("[workspace".to_string()), &vec![], None), Err(Error::Toml(_))));
    match init_manifest(Some("workspace = 1\n".to_string()), &vec![], None) {
        Err(Error::WorkspaceBadFormat(what)) => {
            assert_eq!(what, "no workspace table found in workspace Cargo.toml")
        }
        _ => panic!("a workspace that is no table"),
    }
    match init_manifest(Some("[workspace]\nmembers = \"a\"\n".to_string()), &vec![], None) {
        Err(Error::WorkspaceBadFormat(what)) => {
            assert_eq!(what, "members was not an array in workspace Cargo.toml")
        }
        _ => panic!("members that are no array"),
    }
    assert_eq!(
        Error::WorkspaceBadFormat("x".to_string()).message().unwrap(),
        "the workspace manifest has bad format: x"
    );
}

#[test]
fn new_member_goes_to_the_end_of_the_list() {
    let text = "[workspace]\nmembers = [\n    \"a\",\n    \"b\", # last\n]\nexclude = [\"old/*\"]\n";
    assert_eq!(
        member_manifest(text, "/ws", "/ws/c", "c").unwrap(),
        "[workspace]\nmembers = [\n    \"a\",\n    \"b\",\n    \"c\", # last\n]\nexclude = [\"old/*\"]\n"
    );
    assert_eq!(
        member_manifest("[package]\nname = \"x\"\n", "/ws", "/ws/c", "c").unwrap(),
        "[package]\nname = \"x\"\n\n[workspace]\nmembers = [\n    \"c\",\n]\n"
    );
    assert_eq!(member_manifest("", "/ws", "/ws/c", "c").unwrap(), "[workspace]\nmembers = [\n    \"c\",\n]\n");
}

#[test]
fn member_that_is_listed_is_not_added_again() {
    let text = "[workspace]\nmembers = [\"crates/*\"]\n";
    assert_eq!(member_manifest(text, "/ws", "/ws/crates/c", "crates/c").unwrap(), text);
    assert_eq!(
        member_manifest(text, "/ws", "/ws/tools/c", "tools/c").unwrap(),
        "[workspace]\nmembers = [\"crates/*\",\"tools/c\"]\n"
    );
}

#[test]
fn new_member_must_fit_the_manifest() {
    assert!(matches!(member_manifest("[workspace", "/ws", "/ws/c", "c"), Err(Error::Toml(_))));
    let what = |r: Result<String, Error>| match r {
        Err(Error::WorkspaceBadFormat(what)) => what,
        _ => panic!("a manifest of another shape"),
    };
    assert_eq!(
        what(member_manifest("workspace = 1\n", "/ws", "/ws/c", "c")),
        "workspace manifest item must be a table"
    );
    assert_eq!(
        what(member_manifest("[workspace]\nexclude = 1\n", "/ws", "/ws/c", "c")),
        "workspace.exclude manifest item must be an array"
    );
    assert_eq!(
        what(member_manifest("[workspace]\nexclude = [1]\n", "/ws", "/ws/c", "c")),
        "workspace.exclude manifest items must be strings"
    );
    assert_eq!(
        what(member_manifest("[workspace]\nmembers = \"a\"\n", "/ws", "/ws/c", "c")),
        "workspace.members manifest item must be an array"
    );
    assert_eq!(
        what(member_manifest("[workspace]\nmembers = [\"a\", 2]\n", "/ws", "/ws/c", "c")),
        "workspace.members manifest items must be strings"
    );
    match member_manifest("[workspace]\nexclude = [\"x\", \"c*\"]\n", "/ws", "/ws/c", "c") {
        Err(Error::InWorkspaceExclude(pattern)) => assert_eq!(pattern, "c*"),
        _ => panic!("a member that is excluded"),
    }
    assert!(matches!(
        member_manifest("[workspace]\nmembers = [\"[\"]\n", "/ws", "/ws/c", "c"),
        Err(Error::GlobPattern(_))
    ));
}

#[test]
fn texts_of_an_array_are_its_strings() {
    assert_eq!(
        patterns(&Some(vec![Some("a".to_string()), Some("b".to_string())]), "x").unwrap(),
        vec!["a", "b"]
    );
    assert_eq!(patterns(&Some(vec![]), "x").unwrap(), Vec::<String>::new());
    match patterns(&None, "workspace.members") {
        Err(Error::WorkspaceBadFormat(what)) => {
            assert_eq!(what, "workspace.members manifest item must be an array")
        }
        _ => panic!("no array"),
    }
    match patterns(&Some(vec![Some("a".to_string()), None]), "workspace.exclude") {
        Err(Error::WorkspaceBadFormat(what)) => {
            assert_eq!(what, "workspace.exclude manifest items must be strings")
        }
        _ => panic!("an item that is no string"),
    }
    assert!(has_key(&vec!["a".to_string(), "b".to_string()], "b"));
    assert!(!has_key(&vec!["a".to_string()], "b"));
}
