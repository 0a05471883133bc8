use cargo_workspaces::manifest::change_versions;
use cargo_workspaces::tables::VersionMap;
use cargo_workspaces::version::Version;

#[test]
fn cargo_test_version() {
    let m = "[package]\nversion = \"0.1.0\"\n";

    let mut v = VersionMap::new();
    v.insert("this".to_string(), Version::parse("0.3.0").unwrap());

    assert_eq!(
        change_versions(m.into(), "this", &v, false).unwrap(),
        "[package]\nversion = \"0.3.0\"\n"
    );
}

#[test]
fn cargo_test_version_comments() {
    let m = "[package]\nversion=\"0.1.0\" # hello\n";

    let mut v = VersionMap::new();
    v.insert("this".to_string(), Version::parse("0.3.0").unwrap());

    assert_eq!(
        change_versions(m.into(), "this", &v, false).unwrap(),
        "[package]\nversion=\"0.3.0\" # hello\n"
    );
}

#[test]
fn cargo_test_version_quotes() {
    let m = "[package]\n\"version\"\t=\t\"0.1.0\"\n";

    let mut v = VersionMap::new();
    v.insert("this".to_string(), Version::parse("0.3.0").unwrap());

    assert_eq!(
        change_versions(m.into(), "this", &v, false).unwrap(),
        "[package]\n\"version\"\t=\t\"0.3.0\"\n"
    );
}

#[test]
fn cargo_test_version_single_quotes() {
    let m = "[package]\n'version'='0.1.0'# hello\n";

    let mut v = VersionMap::new();
    v.insert("this".to_string(), Version::parse("0.3.0").unwrap());

    assert_eq!(
        change_versions(m.into(), "this", &v, false).unwrap(),
        "[package]\n'version'='0.3.0'# hello\n"
    );
}

#[test]
fn test_version_workspace() {
    let m = "[workspace.package]\nversion = \"0.1.0\"\n";

    let mut v = VersionMap::new();
    v.insert("this".to_string(), Version::parse("0.3.0").unwrap());

    assert_eq!(
        change_versions(m.into(), "this", &v, false).unwrap(),
        "[workspace.package]\nversion = \"0.3.0\"\n"
    );
}

#[test]
fn test_version_dependencies() {
    let m = "[dependencies]\nthis = \"0.0.1\" # hello\n";

    let mut v = VersionMap::new();
    v.insert("this".to_string(), Version::parse("0.3.0").unwrap());

    assert_eq!(
        change_versions(m.into(), "another", &v, false).unwrap(),
        "[dependencies]\nthis = \"0.3.0\" # hello\n"
    );
}

#[test]
fn test_version_dependencies_object() {
    let m = "[dependencies]\nthis = { path = \"../\", version = \"0.0.1\" } # hello\n";

    let mut v = VersionMap::new();
    v.insert("this".to_string(), Version::parse("0.3.0").unwrap());

    assert_eq!(
        change_versions(m.into(), "another", &v, false).unwrap(),
        "[dependencies]\nthis = { path = \"../\", version = \"0.3.0\" } # hello\n"
    );
}

#[test]
fn test_version_dependencies_object_renamed() {
    let m = "[dependencies]\nthis2 = { path = \"../\", version = \"0.0.1\", package = \"this\" } # hello\n";

    let mut v = VersionMap::new();
    v.insert("this".to_string(), Version::parse("0.3.0").unwrap());

    assert_eq!(
        change_versions(m.into(), "another", &v, false).unwrap(),
        "[dependencies]\nthis2 = { path = \"../\", version = \"0.3.0\", package = \"this\" } # hello\n"
    );
}

#[test]
fn test_version_dependencies_object_renamed_before_version() {
    let m = "[dependencies]\nthis2 = { path = \"../\", package = \"this\", version = \"0.0.1\" } # hello\n";

    let mut v = VersionMap::new();
    v.insert("this".to_string(), Version::parse("0.3.0").unwrap());

    assert_eq!(
        change_versions(m.into(), "another", &v, false).unwrap(),
        "[dependencies]\nthis2 = { path = \"../\", package = \"this\", version = \"0.3.0\" } # hello\n"
    );
}

#[test]
fn test_version_dependency_table() {
    let m = "[dependencies.this]\npath = \"../\"\nversion = \"0.0.1\" # hello\n";

    let mut v = VersionMap::new();
    v.insert("this".to_string(), Version::parse("0.3.0").unwrap());

    assert_eq!(
        change_versions(m.into(), "another", &v, false).unwrap(),
        "[dependencies.this]\npath = \"../\"\nversion = \"0.3.0\" # hello\n"
    );
}

#[test]
fn test_version_dependency_table_renamed_before_version() {
    let m = "[dependencies.this2]\npath = \"../\"\npackage = \"this\"\nversion = \"0.0.1\" # hello\n";

    let mut v = VersionMap::new();
    v.insert("this".to_string(), Version::parse("0.3.0").unwrap());

    assert_eq!(
        change_versions(m.into(), "another", &v, false).unwrap(),
        "[dependencies.this2]\npath = \"../\"\npackage = \"this\"\nversion = \"0.3.0\" # hello\n"
    );
}

#[test]
fn test_version_target_dependencies() {
    let m = "[target.x86_64-pc-windows-gnu.dependencies]\nthis = \"0.0.1\" # hello\n";

    let mut v = VersionMap::new();
    v.insert("this".to_string(), Version::parse("0.3.0").unwrap());

    assert_eq!(
        change_versions(m.into(), "another", &v, false).unwrap(),
        "[target.x86_64-pc-windows-gnu.dependencies]\nthis = \"0.3.0\" # hello\n"
    );
}

#[test]
fn test_version_target_cfg_dependencies() {
    let m = "[target.'cfg(not(any(target_arch = \"wasm32\", target_os = \"emscripten\")))'.dependencies]\nthis = \"0.0.1\" # hello\n";

    let mut v = VersionMap::new();
    v.insert("this".to_string(), Version::parse("0.3.0").unwrap());

    assert_eq!(
        change_versions(m.into(), "another", &v, false).unwrap(),
        "[target.'cfg(not(any(target_arch = \"wasm32\", target_os = \"emscripten\")))'.dependencies]\nthis = \"0.3.0\" # hello\n"
    );
}

#[test]
fn test_version_workspace_dependencies() {
    let m = "[workspace.dependencies]\nthis = \"0.0.1\" # hello\n";

    let mut v = VersionMap::new();
    v.insert("this".to_string(), Version::parse("0.3.0").unwrap());

    assert_eq!(
        change_versions(m.into(), "another", &v, false).unwrap(),
        "[workspace.dependencies]\nthis = \"0.3.0\" # hello\n"
    );
}

#[test]
fn test_version_ignore_workspace() {
    let m = "[dependencies]\nthis = { workspace = true } # hello\n";

    let mut v = VersionMap::new();
    v.insert("this".to_string(), Version::parse("0.3.0").unwrap());

    assert_eq!(
        change_versions(m.into(), "another", &v, false).unwrap(),
        "[dependencies]\nthis = { workspace = true } # hello\n"
    );
}

#[test]
fn test_version_ignore_dotted_workspace() {
    let m = "[dependencies]\nthis.workspace = true # hello\n";

    let mut v = VersionMap::new();
    v.insert("this".to_string(), Version::parse("0.3.0").unwrap());

    assert_eq!(
        change_versions(m.into(), "another", &v, false).unwrap(),
        "[dependencies]\nthis.workspace = true # hello\n"
    );
}

#[test]
fn test_exact() {
    let m = "[dependencies]\nthis = { path = \"../\", version = \"0.0.1\" } # hello\n";

    let mut v = VersionMap::new();
    v.insert("this".to_string(), Version::parse("0.3.0").unwrap());

    assert_eq!(
        change_versions(m.into(), "another", &v, true).unwrap(),
        "[dependencies]\nthis = { path = \"../\", version = \"=0.3.0\" } # hello\n"
    );
}
