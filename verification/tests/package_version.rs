use cargo_workspaces::manifest::change_versions;
use cargo_workspaces::tables::VersionMap;
use cargo_workspaces::version::Version;

#[test]
fn toml_test_version() {
    let m = "\n            [package]\n            version = \"0.1.0\"".to_string();

    let mut v = VersionMap::new();
    v.insert("this".to_string(), Version::parse("0.3.0").unwrap());

    assert_eq!(
        change_versions(m, "this", &v, false).unwrap(),
        "\n            [package]\n            version = \"0.3.0\""
    );
}

#[test]
fn toml_test_version_comments() {
    let m = "\n            [package]\n            version=\"0.1.0\" # hello".to_string();

    let mut v = VersionMap::new();
    v.insert("this".to_string(), Version::parse("0.3.0").unwrap());

    assert_eq!(
        change_versions(m, "this", &v, false).unwrap(),
        "\n            [package]\n            version=\"0.3.0\" # hello"
    );
}

#[test]
fn toml_test_version_quotes() {
    let m = "\n            [package]\n            \"version\"\t=\t\"0.1.0\"".to_string();

    let mut v = VersionMap::new();
    v.insert("this".to_string(), Version::parse("0.3.0").unwrap());

    assert_eq!(
        change_versions(m, "this", &v, false).unwrap(),
        "\n            [package]\n            \"version\"\t=\t\"0.3.0\""
    );
}

#[test]
fn toml_test_version_single_quotes() {
    let m = "\n            [package]\n            'version'='0.1.0'# hello".to_string();

    let mut v = VersionMap::new();
    v.insert("this".to_string(), Version::parse("0.3.0").unwrap());

    assert_eq!(
        change_versions(m, "this", &v, false).unwrap(),
        "\n            [package]\n            'version'='0.3.0'# hello"
    );
}
