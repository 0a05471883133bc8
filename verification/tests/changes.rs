use cargo_workspaces::changes::{changed_files, partition, ChangeData, ChangeOpt, Changed};
use cargo_workspaces::error::Error;
use cargo_workspaces::listing::{ListOpt, Pkg};
use cargo_workspaces::package::PackageConfig;
use cargo_workspaces::version::Version;

fn pkg(name: &str, path: &str) -> Pkg {
    Pkg {
        id: format!("{} 0.1.0", name),
        name: name.to_string(),
        version: Version::new(0, 1, 0),
        location: format!("/ws/{}", path),
        path: path.to_string(),
        private: false,
        config: PackageConfig { independent: None },
    }
}

fn pkgs() -> Vec<Pkg> {
    vec![pkg("core", "crates/core"), pkg("cli", "crates/cli"), pkg("core-extra", "crates/core-extra")]
}

fn names(list: &Vec<Pkg>) -> Vec<&str> {
    list.iter().map(|p| p.name.as_str()).collect()
}

fn options() -> ChangeOpt {
    ChangeOpt { force: None, ignore_changes: None, since: None }
}

#[test]
fn without_a_release_everything_changed() {
    let (changed, unchanged) = options().get_changed_pkgs(&pkgs(), &None);
    assert_eq!(names(&changed), vec!["core", "cli", "core-extra"]);
    assert!(unchanged.is_empty());
}

#[test]
fn packages_change_with_the_files_under_them() {
    let printed = Some("crates/core/src/lib.rs\nREADME.md\n".to_string());
    let (changed, unchanged) = options().get_changed_pkgs(&pkgs(), &printed);
    assert_eq!(names(&changed), vec!["core"]);
    assert_eq!(names(&unchanged), vec!["cli", "core-extra"]);
    let (changed, unchanged) = options().get_changed_pkgs(&pkgs(), &Some("".to_string()));
    assert!(changed.is_empty());
    assert_eq!(names(&unchanged), vec!["core", "cli", "core-extra"]);
}

#[test]
fn forced_packages_change_in_any_case() {
    let mut opt = options();
    opt.force = Some("c*i".to_string());
    let (changed, unchanged) = opt.get_changed_pkgs(&pkgs(), &Some("".to_string()));
    assert_eq!(names(&changed), vec!["cli"]);
    assert_eq!(names(&unchanged), vec!["core", "core-extra"]);
    opt.force = Some("[".to_string());
    let (changed, _) = opt.get_changed_pkgs(&pkgs(), &Some("".to_string()));
    assert!(changed.is_empty());
}

#[test]
fn ignored_files_change_nothing() {
    let mut opt = options();
    opt.ignore_changes = Some("**/*.md".to_string());
    let printed = Some("crates/core/README.md\ncrates/cli/src/main.rs".to_string());
    let (changed, unchanged) = opt.get_changed_pkgs(&pkgs(), &printed);
    assert_eq!(names(&changed), vec!["cli"]);
    assert_eq!(names(&unchanged), vec!["core", "core-extra"]);
    assert!(opt.is_changed(&pkg("cli", "crates/cli"), &vec!["crates/cli/x.rs".to_string()]));
    assert!(!opt.is_changed(&pkg("cli", "crates/cli"), &vec!["crates/cli/x.md".to_string()]));
}

#[test]
fn file_names_are_the_lines_that_are_not_empty() {
    assert_eq!(changed_files("a\n\nb/c\n"), vec!["a", "b/c"]);
    assert_eq!(changed_files("a"), vec!["a"]);
    assert_eq!(changed_files("\n\n"), Vec::<String>::new());
    assert_eq!(changed_files(""), Vec::<String>::new());
}

#[test]
fn partition_follows_the_marks() {
    let (marked, others) = partition(&pkgs(), &vec![false, true, true]);
    assert_eq!(names(&marked), vec!["cli", "core-extra"]);
    assert_eq!(names(&others), vec!["core"]);
}

#[test]
fn release_data_without_a_tag_counts_one_commit() {
    let data = ChangeData::new("", "7".to_string(), Some("v1".to_string()));
    assert_eq!(data.count, "1");
    assert_eq!(data.since, None);
    assert!(!data.dirty);
    assert!(!data.is_released());
    let data = ChangeData::new("abc123", "0".to_string(), Some("v1".to_string()));
    assert_eq!(data.count, "0");
    assert_eq!(data.since, Some("v1".to_string()));
    assert!(data.is_released());
    let data = ChangeData::new("abc123", "3".to_string(), None);
    assert_eq!(data.since, None);
    assert!(!data.is_released());
}

#[test]
fn nothing_to_list_is_an_error_on_demand() {
    let mut changed = Changed {
        list: ListOpt { long: false, all: false, json: false },
        change: options(),
        since: None,
        error_on_empty: false,
    };
    assert!(changed.finish().is_ok());
    changed.error_on_empty = true;
    assert!(matches!(changed.finish(), Err(Error::NoChanges)));
}
