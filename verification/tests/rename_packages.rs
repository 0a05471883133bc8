use cargo_workspaces::manifest::rename_packages;
use cargo_workspaces::tables::RenameMap;

#[test]
fn test_name() {
    let m = "[package]\nname = \"this\"\n";

    let mut v = RenameMap::new();
    v.insert("this".to_string(), "ra_this".to_string());

    assert_eq!(
        rename_packages(m.into(), "this", &v).unwrap(),
        "[package]\nname = \"ra_this\"\n"
    );
}

#[test]
fn test_name_dependencies() {
    let m = "[dependencies]\nthis = \"0.0.1\" # hello\n";

    let mut v = RenameMap::new();
    v.insert("this".to_string(), "ra_this".to_string());

    assert_eq!(
        rename_packages(m.into(), "another", &v).unwrap(),
        "[dependencies]\nthis = { version = \"0.0.1\", package = \"ra_this\" } # hello\n"
    );
}

#[test]
fn test_name_dependencies_object() {
    let m = "[dependencies]\nthis = { path = \"../\", version = \"0.0.1\" } # hello\n";

    let mut v = RenameMap::new();
    v.insert("this".to_string(), "ra_this".to_string());

    assert_eq!(
        rename_packages(m.into(), "another", &v).unwrap(),
        "[dependencies]\nthis = { path = \"../\", version = \"0.0.1\", package = \"ra_this\" } # hello\n"
    );
}

#[test]
fn test_name_dependencies_object_renamed() {
    let m = "[dependencies]\nthis2 = { path = \"../\", version = \"0.0.1\", package = \"this\" } # hello\n";

    let mut v = RenameMap::new();
    v.insert("this".to_string(), "ra_this".to_string());

    assert_eq!(
        rename_packages(m.into(), "another", &v).unwrap(),
        "[dependencies]\nthis2 = { path = \"../\", version = \"0.0.1\", package = \"ra_this\" } # hello\n"
    );
}

#[test]
fn test_name_dependencies_object_renamed_before_version() {
    let m = "[dependencies]\nthis2 = { path = \"../\", package = \"this\", version = \"0.0.1\" } # hello\n";

    let mut v = RenameMap::new();
    v.insert("this".to_string(), "ra_this".to_string());

    assert_eq!(
        rename_packages(m.into(), "another", &v).unwrap(),
        "[dependencies]\nthis2 = { path = \"../\", package = \"ra_this\", version = \"0.0.1\" } # hello\n"
    );
}

#[test]
fn test_name_dependency_table() {
    let m = "[dependencies.this]\npath = \"../\"\nversion = \"0.0.1\" # hello\n";

    let mut v = RenameMap::new();
    v.insert("this".to_string(), "ra_this".to_string());

    assert_eq!(
        rename_packages(m.into(), "another", &v).unwrap(),
        "[dependencies.this]\npath = \"../\"\nversion = \"0.0.1\" # hello\npackage = \"ra_this\"\n"
    );
}

#[test]
fn test_name_dependency_table_renamed() {
    let m = "[dependencies.this2]\npath = \"../\"\nversion = \"0.0.1\" # hello\"\npackage = \"this\"\n";

    let mut v = RenameMap::new();
    v.insert("this".to_string(), "ra_this".to_string());

    assert_eq!(
        rename_packages(m.into(), "another", &v).unwrap(),
        "[dependencies.this2]\npath = \"../\"\nversion = \"0.0.1\" # hello\"\npackage = \"ra_this\"\n"
    );
}

#[test]
fn test_name_dependency_table_renamed_before_version() {
    let m = "[dependencies.this2]\npath = \"../\"\npackage = \"this\"\nversion = \"0.0.1\" # hello\n";

    let mut v = RenameMap::new();
    v.insert("this".to_string(), "ra_this".to_string());

    assert_eq!(
        rename_packages(m.into(), "another", &v).unwrap(),
        "[dependencies.this2]\npath = \"../\"\npackage = \"ra_this\"\nversion = \"0.0.1\" # hello\n"
    );
}

#[test]
fn test_name_target_dependencies() {
    let m = "[target.x86_64-pc-windows-gnu.dependencies]\nthis = \"0.0.1\" # hello\n";

    let mut v = RenameMap::new();
    v.insert("this".to_string(), "ra_this".to_string());

    assert_eq!(
        rename_packages(m.into(), "another", &v).unwrap(),
        "[target.x86_64-pc-windows-gnu.dependencies]\nthis = { version = \"0.0.1\", package = \"ra_this\" } # hello\n"
    );
}

#[test]
fn test_name_target_cfg_dependencies() {
    let m = "[target.'cfg(not(any(target_arch = \"wasm32\", target_os = \"emscripten\")))'.dependencies]\nthis = \"0.0.1\" # hello\n";

    let mut v = RenameMap::new();
    v.insert("this".to_string(), "ra_this".to_string());

    assert_eq!(
        rename_packages(m.into(), "another", &v).unwrap(),
        "[target.'cfg(not(any(target_arch = \"wasm32\", target_os = \"emscripten\")))'.dependencies]\nthis = { version = \"0.0.1\", package = \"ra_this\" } # hello\n"
    );
}

#[test]
fn test_name_workspace_dependencies() {
    let m = "[workspace.dependencies]\nthis = \"0.0.1\" # hello\n";

    let mut v = RenameMap::new();
    v.insert("this".to_string(), "ra_this".to_string());

    assert_eq!(
        rename_packages(m.into(), "another", &v).unwrap(),
        "[workspace.dependencies]\nthis = { version = \"0.0.1\", package = \"ra_this\" } # hello\n"
    );
}

#[test]
fn test_name_ignore_workspace() {
    let m = "[dependencies]\nthis = { workspace = true } # hello\n";

    let mut v = RenameMap::new();
    v.insert("this".to_string(), "ra_this".to_string());

    assert_eq!(
        rename_packages(m.into(), "another", &v).unwrap(),
        "[dependencies]\nthis = { workspace = true } # hello\n"
    );
}

#[test]
fn test_name_ignore_workspace_with_keys() {
    let m = "[dependencies]\nthis = { workspace = true, optional = true } # hello\n";

    let mut v = RenameMap::new();
    v.insert("this".to_string(), "ra_this".to_string());

    assert_eq!(
        rename_packages(m.into(), "another", &v).unwrap(),
        "[dependencies]\nthis = { workspace = true, optional = true } # hello\n"
    );
}

#[test]
fn test_name_ignore_dotted_workspace() {
    let m = "[dependencies]\nthis.workspace = true # hello\n";

    let mut v = RenameMap::new();
    v.insert("this".to_string(), "ra_this".to_string());

    assert_eq!(
        rename_packages(m.into(), "another", &v).unwrap(),
        "[dependencies]\nthis.workspace = true # hello\n"
    );
}
