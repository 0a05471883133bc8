use cargo_workspaces::bump::Bump;
use cargo_workspaces::changes::{ChangeData, ChangeOpt};
use cargo_workspaces::error::Error;
use cargo_workspaces::git::GitOpt;
use cargo_workspaces::package::{Dependency, DependencyKind, Package, PackageConfig};
use cargo_workspaces::planner::Planned;
use cargo_workspaces::tables::VersionMap;
use cargo_workspaces::version::Version;
use cargo_workspaces::versioning::{
    change_line, check_update, confirm_versions, needs_rewrite, root_versions, version_items,
    VersionOpt,
};

fn v(text: &str) -> Version {
    Version::parse(text).unwrap()
}

fn options(pre_id: Option<&str>) -> VersionOpt {
    VersionOpt {
        bump: None,
        custom: None,
        pre_id: pre_id.map(|s| s.to_string()),
        change: ChangeOpt { force: None, ignore_changes: None, since: None },
        git: GitOpt {
            no_git_commit: false,
            allow_branch: None,
            amend: false,
            message: None,
            no_git_tag: false,
            no_individual_tags: false,
            no_global_tag: false,
            tag_prefix: "v".to_string(),
            individual_tag_prefix: "%n@".to_string(),
            no_git_push: false,
            git_remote: "origin".to_string(),
        },
        all: false,
        exact: false,
        yes: false,
    }
}

fn labels(items: &Vec<(String, Option<Version>)>) -> Vec<&str> {
    items.iter().map(|i| i.0.as_str()).collect()
}

#[test]
fn menu_offers_six_versions() {
    let items = version_items(&v("0.7.2"), &None);
    assert_eq!(
        labels(&items),
        vec![
            "Patch (0.7.3)",
            "Minor (0.8.0)",
            "Major (1.0.0)",
            "Prepatch (0.7.3-alpha.0)",
            "Preminor (0.8.0-alpha.0)",
            "Premajor (1.0.0-alpha.0)",
        ]
    );
    assert_eq!(items[3].1.as_ref().unwrap().to_string(), "0.7.3-alpha.0");
    let items = version_items(&v("1.0.0-rc.3"), &Some("beta".to_string()));
    assert_eq!(
        labels(&items),
        vec![
            "Patch (1.0.0)",
            "Minor (1.0.0)",
            "Major (1.0.0)",
            "Prepatch (1.0.1-rc.0)",
            "Preminor (1.1.0-rc.0)",
            "Premajor (2.0.0-rc.0)",
        ]
    );
    let items = version_items(&v("1.0.0"), &Some("beta".to_string()));
    assert_eq!(items[5].0, "Premajor (2.0.0-beta.0)");
}

#[test]
fn choice_gives_the_new_version() {
    let opt = options(Some("beta"));
    let cur = v("0.7.2");
    let custom = v("9.9.9");
    let pick = |selected: usize| opt.ask_version(&cur, selected, "rc", &custom).map(|x| x.to_string());
    assert_eq!(pick(Bump::Patch.selected()), Some("0.7.3".to_string()));
    assert_eq!(pick(Bump::Minor.selected()), Some("0.8.0".to_string()));
    assert_eq!(pick(Bump::Major.selected()), Some("1.0.0".to_string()));
    assert_eq!(pick(Bump::Prepatch.selected()), Some("0.7.3-beta.0".to_string()));
    assert_eq!(pick(Bump::Preminor.selected()), Some("0.8.0-beta.0".to_string()));
    assert_eq!(pick(Bump::Premajor.selected()), Some("1.0.0-beta.0".to_string()));
    assert_eq!(pick(Bump::Skip.selected()), None);
    assert_eq!(pick(Bump::Prerelease.selected()), Some("0.7.3-rc.0".to_string()));
    assert_eq!(pick(Bump::Custom.selected()), Some("9.9.9".to_string()));
}

#[test]
fn released_head_needs_no_versions() {
    let mut opt = options(None);
    let released = ChangeData { since: Some("v1".to_string()), count: "0".to_string(), dirty: false };
    assert!(opt.is_released(&released));
    let dirty = ChangeData { since: None, count: "0".to_string(), dirty: true };
    assert!(!opt.is_released(&dirty));
    let ahead = ChangeData { since: None, count: "2".to_string(), dirty: false };
    assert!(!opt.is_released(&ahead));
    opt.change.force = Some("*".to_string());
    assert!(!opt.is_released(&released));
}

#[test]
fn manifests_are_rewritten_where_a_version_occurs() {
    let package = |name: &str, deps: Vec<&str>| Package {
        id: format!("{} 0.1.0", name),
        name: name.to_string(),
        version: Version::new(0, 1, 0),
        manifest_path: format!("/ws/{}/Cargo.toml", name),
        dependencies: deps
            .into_iter()
            .map(|d| Dependency {
                name: d.to_string(),
                kind: DependencyKind::Development,
                req: "*".to_string(),
                path: None,
                rename: None,
                source: None,
            })
            .collect(),
        publish: None,
        config: PackageConfig { independent: None },
        description: None,
        license: None,
        license_file: None,
        homepage: None,
        documentation: None,
        repository: None,
        keywords: vec![],
    };
    let mut versions = VersionMap::new();
    versions.insert("core".to_string(), v("1.0.0"));
    assert!(needs_rewrite(&package("core", vec![]), &versions));
    assert!(needs_rewrite(&package("cli", vec!["serde", "core"]), &versions));
    assert!(!needs_rewrite(&package("cli", vec!["serde"]), &versions));
    assert!(!needs_rewrite(&package("cli", vec![]), &VersionMap::new()));
}

#[test]
fn plan_becomes_a_table_by_name() {
    let planned = |name: &str, version: &str, previous: &str| Planned {
        index: 0,
        name: name.to_string(),
        version: v(version),
        previous: v(previous),
    };
    let plan = vec![
        planned("zeta", "1.1.0", "1.0.0"),
        planned("alpha", "0.2.0", "0.1.9"),
        planned("zeta", "1.2.0", "1.0.0"),
    ];
    let table = confirm_versions(&plan);
    assert_eq!(table.len(), 2);
    assert_eq!(table.get("zeta").unwrap().to_string(), "1.2.0");
    assert_eq!(table.get("alpha").unwrap().to_string(), "0.2.0");
    assert!(table.get("beta").is_none());
    assert_eq!(table.entry(0).0, "alpha");
    assert_eq!(table.entry(1).0, "zeta");
    assert_eq!(change_line(&plan[1]), " - alpha: 0.1.9 => 0.2.0");
    assert!(!table.is_empty());
    assert!(confirm_versions(&vec![]).is_empty());
    let copy = table.duplicate();
    assert_eq!(copy.len(), 2);
    assert_eq!(copy.entry(1).1.to_string(), "1.2.0");
}

#[test]
fn root_manifest_gets_the_common_version_under_the_empty_name() {
    let mut versions = VersionMap::new();
    versions.insert("core".to_string(), v("1.0.0"));
    let root = root_versions(&versions, &Some(v("2.0.0")));
    assert_eq!(root.get("").unwrap().to_string(), "2.0.0");
    assert_eq!(root.get("core").unwrap().to_string(), "1.0.0");
    assert_eq!(root.len(), 2);
    let root = root_versions(&versions, &None);
    assert!(root.get("").is_none());
    assert_eq!(root.len(), 1);
    assert_eq!(versions.len(), 1);
}

#[test]
fn failed_update_is_an_error() {
    assert!(check_update("    Updating crates.io index").is_ok());
    assert!(matches!(check_update("error: failed to select a version"), Err(Error::Update)));
}
