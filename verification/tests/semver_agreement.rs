use cargo_workspaces::version::Version;

const TABLE: [&str; 24] = [
    "0.0.0",
    "0.0.1",
    "0.1.0",
    "0.10.0",
    "0.9.9",
    "1.0.0-0",
    "1.0.0-1",
    "1.0.0-10",
    "1.0.0-2",
    "1.0.0-alpha",
    "1.0.0-alpha.1",
    "1.0.0-alpha.beta",
    "1.0.0-alpha.1.2",
    "1.0.0-beta",
    "1.0.0-beta.2",
    "1.0.0-beta.11",
    "1.0.0-rc.1",
    "1.0.0-Z",
    "1.0.0-a-b",
    "1.0.0",
    "1.0.0+build.7",
    "1.0.0-alpha+001",
    "2.0.0",
    "18446744073709551615.18446744073709551615.18446744073709551615",
];

#[test]
fn precedence_agrees_with_semver() {
    for a in TABLE {
        for b in TABLE {
            let ours = Version::parse(a).unwrap().less_than(&Version::parse(b).unwrap());
            let theirs = semver::Version::parse(a).unwrap() < semver::Version::parse(b).unwrap();
            assert_eq!(ours, theirs, "{} < {}", a, b);
        }
    }
}

#[test]
fn text_agrees_with_semver() {
    for a in TABLE {
        assert_eq!(
            Version::parse(a).unwrap().to_string(),
            semver::Version::parse(a).unwrap().to_string()
        );
    }
    let built = Version::new(7, 0, 19);
    assert_eq!(built.to_string(), semver::Version::new(7, 0, 19).to_string());
}

#[test]
fn increments_agree_with_semver() {
    for a in ["0.0.0", "1.2.3", "0.9.9", "10.0.7"] {
        let ours = Version::parse(a).unwrap();
        let mut theirs = semver::Version::parse(a).unwrap();
        theirs.increment_patch();
        assert_eq!(cargo_workspaces::bump::inc_patch(ours.clone()).to_string(), theirs.to_string());
        let mut theirs = semver::Version::parse(a).unwrap();
        theirs.increment_minor();
        assert_eq!(cargo_workspaces::bump::inc_minor(ours.clone()).to_string(), theirs.to_string());
        let mut theirs = semver::Version::parse(a).unwrap();
        theirs.increment_major();
        assert_eq!(cargo_workspaces::bump::inc_major(ours.clone()).to_string(), theirs.to_string());
    }
}
