use cargo_workspaces::error::Error;
use cargo_workspaces::manifest::{
    change_versions, edit_line, edit_version, group_text, parse, read_header, rename_packages,
    Context, Edit, Heading,
};
use cargo_workspaces::tables::{RenameMap, VersionMap};
use cargo_workspaces::version::Version;

fn versions(entries: &[(&str, &str)]) -> VersionMap {
    let mut map = VersionMap::new();
    for (name, version) in entries {
        map.insert(name.to_string(), Version::parse(version).unwrap());
    }
    map
}

fn renames(entries: &[(&str, &str)]) -> RenameMap {
    let mut map = RenameMap::new();
    for (name, to) in entries {
        map.insert(name.to_string(), to.to_string());
    }
    map
}

const MANIFEST: &str = "[package]\nname = \"this\" # the name\nversion = \"0.1.0\"\n\n[dependencies]\nleft = \"0.0.1\" # hello\nright = { path = \"../right\", version = \"0.0.1\" }\n\n[dev-dependencies.up]\nversion = \"0.0.1\"\n\n[features]\ndefault = []\n";

#[test]
fn nothing_to_change_gives_the_manifest_back() {
    let none = VersionMap::new();
    assert_eq!(change_versions(MANIFEST.to_string(), "this", &none, false).unwrap(), MANIFEST);
    assert_eq!(change_versions(MANIFEST.to_string(), "this", &none, true).unwrap(), MANIFEST);
    assert_eq!(rename_packages(MANIFEST.to_string(), "this", &RenameMap::new()).unwrap(), MANIFEST);
    for dev_deps in [false, true] {
        let edit = Edit::Versions { pkg_name: "this", versions: &none, exact: false };
        assert_eq!(parse(MANIFEST.to_string(), dev_deps, &edit).unwrap(), MANIFEST);
    }
}

#[test]
fn nothing_to_change_keeps_the_way_the_text_ends() {
    let none = VersionMap::new();
    for text in ["", "\n", "a", "a\n", "a\n\n", "\n\na", "a\r\n", "a\r\nb", "a\r\n\r\n", "a\rb\n"] {
        assert_eq!(change_versions(text.to_string(), "this", &none, false).unwrap(), text);
        assert_eq!(rename_packages(text.to_string(), "this", &RenameMap::new()).unwrap(), text);
    }
}

#[test]
fn mixed_line_endings_become_alike() {
    let none = VersionMap::new();
    assert_eq!(
        change_versions("a\r\nb\nc".to_string(), "this", &none, false).unwrap(),
        "a\r\nb\r\nc"
    );
    assert_eq!(
        change_versions("a\nb\r\n".to_string(), "this", &none, false).unwrap(),
        "a\r\nb\r\n"
    );
}

#[test]
fn carriage_returns_are_kept_with_the_line_feeds() {
    let v = versions(&[("this", "0.3.0")]);
    assert_eq!(
        change_versions("[package]\r\nversion = \"0.1.0\"\r\n".to_string(), "this", &v, false)
            .unwrap(),
        "[package]\r\nversion = \"0.3.0\"\r\n"
    );
}

#[test]
fn lines_about_other_packages_stay() {
    let v = versions(&[("left", "0.3.0")]);
    assert_eq!(
        change_versions(MANIFEST.to_string(), "this", &v, false).unwrap(),
        MANIFEST.replace("left = \"0.0.1\" # hello", "left = \"0.3.0\" # hello")
    );
    let n = renames(&[("right", "ra_right")]);
    assert_eq!(
        rename_packages(MANIFEST.to_string(), "this", &n).unwrap(),
        MANIFEST.replace(
            "right = { path = \"../right\", version = \"0.0.1\" }",
            "right = { path = \"../right\", version = \"0.0.1\", package = \"ra_right\" }"
        )
    );
}

#[test]
fn requirement_that_admits_the_version_stays() {
    let v = versions(&[("this", "0.3.0")]);
    let m = "[dependencies]\nthis = \">=0.0.1\" # hello\n";
    assert_eq!(change_versions(m.to_string(), "another", &v, false).unwrap(), m);
    assert_eq!(
        change_versions(m.to_string(), "another", &v, true).unwrap(),
        "[dependencies]\nthis = \"=0.3.0\" # hello\n"
    );
}

#[test]
fn unreadable_requirement_is_an_error_only_when_compared() {
    let v = versions(&[("this", "0.3.0")]);
    let m = "[dependencies]\nthis = \"what\"\nthat = \"huh\"\n";
    assert!(matches!(
        change_versions(m.to_string(), "another", &v, false),
        Err(Error::Semver(_))
    ));
    assert_eq!(
        change_versions(m.to_string(), "another", &v, true).unwrap(),
        "[dependencies]\nthis = \"=0.3.0\"\nthat = \"huh\"\n"
    );
    let other = versions(&[("else", "0.3.0")]);
    assert_eq!(change_versions(m.to_string(), "another", &other, false).unwrap(), m);
}

#[test]
fn development_dependencies_are_left_out_of_versions() {
    let v = versions(&[("this", "0.3.0")]);
    let m = "[dev-dependencies]\nthis = \"0.0.1\"\n\n[dev-dependencies.this]\nversion = \"0.0.1\"\n";
    assert_eq!(change_versions(m.to_string(), "another", &v, false).unwrap(), m);
    let edit = Edit::Versions { pkg_name: "another", versions: &v, exact: false };
    assert_eq!(
        parse(m.to_string(), true, &edit).unwrap(),
        "[dev-dependencies]\nthis = \"0.3.0\"\n\n[dev-dependencies.this]\nversion = \"0.3.0\"\n"
    );
}

#[test]
fn development_dependencies_after_dependencies_are_left_out() {
    let v = versions(&[("this", "0.3.0")]);
    let m = "[dependencies]\nthis = \"0.0.1\"\n[dev-dependencies]\nthis = \"0.0.1\"\n";
    assert_eq!(
        change_versions(m.to_string(), "another", &v, false).unwrap(),
        "[dependencies]\nthis = \"0.3.0\"\n[dev-dependencies]\nthis = \"0.0.1\"\n"
    );
}

#[test]
fn development_dependencies_are_renamed() {
    let n = renames(&[("this", "ra_this")]);
    let m = "[dev-dependencies]\nthis = \"0.0.1\"\n";
    assert_eq!(
        rename_packages(m.to_string(), "another", &n).unwrap(),
        "[dev-dependencies]\nthis = { version = \"0.0.1\", package = \"ra_this\" }\n"
    );
}

#[test]
fn build_dependencies_are_edited() {
    let v = versions(&[("this", "0.3.0")]);
    let m = "[build-dependencies]\nthis = \"0.0.1\"\n\n[build-dependencies.this]\nversion = \"0.0.1\"\n";
    assert_eq!(
        change_versions(m.to_string(), "another", &v, false).unwrap(),
        "[build-dependencies]\nthis = \"0.3.0\"\n\n[build-dependencies.this]\nversion = \"0.3.0\"\n"
    );
}

#[test]
fn exact_version_of_a_renamed_dependency() {
    let v = versions(&[("this", "0.3.0")]);
    let m = "[dependencies]\nthis2 = { path = \"../\", version = \"0.0.1\", package = \"this\" }\n";
    assert_eq!(
        change_versions(m.to_string(), "another", &v, true).unwrap(),
        "[dependencies]\nthis2 = { path = \"../\", version = \"=0.3.0\", package = \"this\" }\n"
    );
    assert_eq!(
        change_versions(m.to_string(), "another", &v, false).unwrap(),
        "[dependencies]\nthis2 = { path = \"../\", version = \"0.3.0\", package = \"this\" }\n"
    );
    let other = versions(&[("this2", "0.3.0")]);
    assert_eq!(change_versions(m.to_string(), "another", &other, true).unwrap(), m);
}

#[test]
fn exact_version_in_the_table_of_a_dependency() {
    let v = versions(&[("this", "0.3.0")]);
    let m = "[dependencies.this]\npath = \"../\"\nversion = \"0.0.1\" # hello\n";
    assert_eq!(
        change_versions(m.to_string(), "another", &v, true).unwrap(),
        "[dependencies.this]\npath = \"../\"\nversion = \"=0.3.0\" # hello\n"
    );
}

#[test]
fn pending_package_key_goes_before_the_next_table() {
    let n = renames(&[("this", "ra_this")]);
    let m = "[dependencies.this]\npath = \"../\"\n\n[features]\ndefault = []\n";
    assert_eq!(
        rename_packages(m.to_string(), "another", &n).unwrap(),
        "[dependencies.this]\npath = \"../\"\n\npackage = \"ra_this\"\n[features]\ndefault = []\n"
    );
}

#[test]
fn package_key_that_is_there_is_not_added_again() {
    let n = renames(&[("this", "ra_this")]);
    let m = "[dependencies.this2]\npackage = \"this\"\n\n[features]\n";
    assert_eq!(
        rename_packages(m.to_string(), "another", &n).unwrap(),
        "[dependencies.this2]\npackage = \"ra_this\"\n\n[features]\n"
    );
}

#[test]
fn own_name_and_version_are_edited_in_the_package_table_only() {
    let v = versions(&[("this", "0.3.0")]);
    let m = "version = \"0.1.0\"\n[package]\nversion = \"0.1.0\"\n[lib]\nversion = \"0.1.0\"\n";
    assert_eq!(
        change_versions(m.to_string(), "this", &v, false).unwrap(),
        "version = \"0.1.0\"\n[package]\nversion = \"0.3.0\"\n[lib]\nversion = \"0.1.0\"\n"
    );
    assert_eq!(change_versions(m.to_string(), "other", &v, false).unwrap(), m);
}

#[test]
fn line_with_the_workspace_key_stays() {
    let v = versions(&[("this", "0.3.0")]);
    let m = "[dependencies]\nthis = { workspace = true, version = \"0.0.1\" }\n";
    assert_eq!(change_versions(m.to_string(), "another", &v, false).unwrap(), m);
    let n = renames(&[("this", "ra_this")]);
    let m = "[dependencies]\nthis2 = { workspace = true, package = \"this\" }\n";
    assert_eq!(rename_packages(m.to_string(), "another", &n).unwrap(), m);
}

#[test]
fn headers_are_told_apart() {
    let chars = |s: &str| s.chars().collect::<Vec<char>>();
    assert!(matches!(read_header(&chars("[package]"), false), Heading::Package));
    assert!(matches!(read_header(&chars("[workspace.package]"), false), Heading::Package));
    assert!(matches!(read_header(&chars("[dependencies]"), false), Heading::Dependencies));
    assert!(matches!(
        read_header(&chars("[target.'cfg(unix)'.build-dependencies]"), false),
        Heading::Dependencies
    ));
    assert!(matches!(read_header(&chars("[dev-dependencies]"), true), Heading::Dependencies));
    assert!(matches!(read_header(&chars("[dev-dependencies]"), false), Heading::Other));
    assert!(matches!(read_header(&chars("[features]"), true), Heading::Other));
    assert!(matches!(read_header(&chars("name = \"x\""), true), Heading::NoHeader));
    assert!(matches!(read_header(&chars(""), true), Heading::NoHeader));
    match read_header(&chars("[workspace.dependencies.serde-json]"), false) {
        Heading::DependencyEntry(name) => assert_eq!(name, "serde-json"),
        _ => panic!("no entry"),
    }
    match read_header(&chars("[dev-dependencies.this]"), true) {
        Heading::DependencyEntry(name) => assert_eq!(name, "this"),
        _ => panic!("no entry"),
    }
    assert!(matches!(read_header(&chars("[dev-dependencies.this]"), false), Heading::Other));
}

#[test]
fn package_key_tells_the_versions_which_package_the_table_is_for() {
    let v = versions(&[("this", "0.3.0")]);
    let edit = Edit::Versions { pkg_name: "another", versions: &v, exact: false };
    let (outcome, context) =
        edit_line(&edit, Context::DependencyEntry("this2".to_string()), "package = \"this\"");
    assert!(matches!(outcome, Ok(None)));
    match context {
        Context::DependencyEntry(name) => assert_eq!(name, "this"),
        other => panic!("{:?}", other),
    }
    let n = renames(&[("this", "ra_this")]);
    let edit = Edit::Names { pkg_name: "another", renames: &n };
    let (outcome, context) =
        edit_line(&edit, Context::DependencyEntry("this2".to_string()), "package = \"this\"");
    assert_eq!(outcome.unwrap().unwrap(), "package = \"ra_this\"");
    assert!(matches!(context, Context::DontCare));
}

#[test]
fn requirement_is_edited_between_prefix_and_suffix() {
    let v = versions(&[("this", "0.3.0")]);
    assert_eq!(
        edit_version(&v, false, "this", "a = \"", "0.0.1", "\" # b").unwrap().unwrap(),
        "a = \"0.3.0\" # b"
    );
    assert_eq!(
        edit_version(&v, true, "this", "a = \"", "*", "\"").unwrap().unwrap(),
        "a = \"=0.3.0\""
    );
    assert!(edit_version(&v, false, "this", "a = \"", "*", "\"").unwrap().is_none());
    assert!(edit_version(&v, false, "that", "a = \"", "0.0.1", "\"").unwrap().is_none());
    assert!(matches!(
        edit_version(&v, false, "this", "a = \"", "~~", "\""),
        Err(Error::Semver(_))
    ));
}

#[test]
fn missing_groups_read_as_empty() {
    let groups = vec![Some("whole".to_string()), None, Some("two".to_string())];
    assert_eq!(group_text(&groups, 0), "whole");
    assert_eq!(group_text(&groups, 1), "");
    assert_eq!(group_text(&groups, 2), "two");
    assert_eq!(group_text(&groups, 3), "");
}
