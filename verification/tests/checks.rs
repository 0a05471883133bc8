use cargo_workspaces::checks::{basic_checks, problems, valid_keyword, validate_url};
use cargo_workspaces::error::{
    get_debug, set_debug, validate_value_containing_name, Error, Verbosity,
};
use cargo_workspaces::package::{is_independent, is_private, Package, PackageConfig};
use cargo_workspaces::version::Version;

fn sound() -> Package {
    Package {
        id: "foo 0.1.0".to_string(),
        name: "foo".to_string(),
        version: Version::new(0, 1, 0),
        manifest_path: "/ws/foo/Cargo.toml".to_string(),
        dependencies: vec![],
        publish: None,
        config: PackageConfig { independent: None },
        description: Some("A package".to_string()),
        license: Some("MIT".to_string()),
        license_file: None,
        homepage: Some("https://example.com".to_string()),
        documentation: None,
        repository: Some("http://example.com/repo".to_string()),
        keywords: vec!["cli".to_string(), "cargo-ws".to_string(), "c++".to_string()],
    }
}

#[test]
fn sound_metadata_has_no_problems() {
    assert_eq!(problems(&sound()), Vec::<String>::new());
    assert!(basic_checks(&sound()).is_ok());
}

#[test]
fn missing_fields_are_problems() {
    let mut pkg = sound();
    pkg.description = None;
    pkg.license = None;
    assert_eq!(
        problems(&pkg),
        vec![
            "'description' field should be set",
            "either 'license' or 'license-file' field should be set",
        ]
    );
    match basic_checks(&pkg) {
        Err(Error::Publish(name)) => assert_eq!(name, "foo"),
        other => panic!("{:?}", other),
    }
    pkg.license_file = Some("LICENSE".to_string());
    assert_eq!(problems(&pkg), vec!["'description' field should be set"]);
}

#[test]
fn long_description_is_a_problem() {
    let mut pkg = sound();
    pkg.description = Some("d".repeat(1000));
    assert!(problems(&pkg).is_empty());
    pkg.description = Some("d".repeat(1001));
    assert_eq!(problems(&pkg), vec!["Description is too long (max 1000 characters)"]);
    pkg.description = Some("é".repeat(501));
    assert_eq!(problems(&pkg), vec!["Description is too long (max 1000 characters)"]);
}

#[test]
fn urls_must_begin_with_http_and_parse() {
    let mut found = vec!["before".to_string()];
    validate_url(&None, "homepage", &mut found);
    validate_url(&Some("https://example.com/x".to_string()), "homepage", &mut found);
    assert_eq!(found, vec!["before"]);
    validate_url(&Some("ftp://example.com".to_string()), "homepage", &mut found);
    assert_eq!(
        found,
        vec![
            "before",
            "URL for field `homepage` must begin with http:// or https:// (url: ftp://example.com)",
        ]
    );
    let mut found = vec![];
    validate_url(&Some("example.com".to_string()), "repository", &mut found);
    assert_eq!(
        found,
        vec![
            "URL for field `repository` must begin with http:// or https:// (url: example.com)",
            "`repository` is not a valid url: `example.com`",
        ]
    );
    let mut found = vec![];
    validate_url(&Some("https://".to_string()), "documentation", &mut found);
    assert_eq!(found, vec!["`documentation` is not a valid url: `https://`"]);
}

#[test]
fn problems_come_in_the_order_of_the_checks() {
    let mut pkg = sound();
    pkg.description = None;
    pkg.homepage = Some("example.com".to_string());
    pkg.documentation = Some("mailto:x@example.com".to_string());
    pkg.keywords = vec![
        "ok".to_string(),
        "-dash".to_string(),
        "x".repeat(21),
        "under_score".to_string(),
        "sp ace".to_string(),
        "six".to_string(),
    ];
    assert_eq!(
        problems(&pkg),
        vec![
            "'description' field should be set".to_string(),
            "URL for field `homepage` must begin with http:// or https:// (url: example.com)"
                .to_string(),
            "`homepage` is not a valid url: `example.com`".to_string(),
            "URL for field `documentation` must begin with http:// or https:// (url: mailto:x@example.com)"
                .to_string(),
            "Too many keywords (max 5 keywords)".to_string(),
            "Keyword contains invalid characters: -dash".to_string(),
            format!("Keyword is too long (max 20 characters): {}", "x".repeat(21)),
            "Keyword contains invalid characters: sp ace".to_string(),
        ]
    );
}

#[test]
fn keywords_are_made_of_few_characters() {
    for good in ["a", "0", "Z9", "a-b", "a_b", "c++", "x-", "9_"] {
        assert!(valid_keyword(good), "{}", good);
    }
    for bad in ["", "-a", "_a", "+a", "a b", "a.b", "é", "aé", "a/b"] {
        assert!(!valid_keyword(bad), "{}", bad);
    }
}

#[test]
fn privacy_and_independence_are_read_from_the_package() {
    let mut pkg = sound();
    assert!(!is_private(&pkg));
    assert!(!is_independent(&pkg));
    pkg.publish = Some(vec![]);
    assert!(is_private(&pkg));
    pkg.publish = Some(vec!["mine".to_string()]);
    assert!(!is_private(&pkg));
    pkg.config.independent = Some(false);
    assert!(!is_independent(&pkg));
    pkg.config.independent = Some(true);
    assert!(is_independent(&pkg));
}

#[test]
fn placeholder_for_the_name_is_asked_for() {
    assert_eq!(validate_value_containing_name("%n@"), Ok(()));
    assert_eq!(validate_value_containing_name("v-%n-x"), Ok(()));
    assert_eq!(validate_value_containing_name("%v"), Err("must contain '%n'\n".to_string()));
    assert_eq!(validate_value_containing_name(""), Err("must contain '%n'\n".to_string()));
}

#[test]
fn detailed_reports_are_switched_on() {
    let mut verbosity = Verbosity::default();
    assert!(!get_debug(&verbosity));
    set_debug(&mut verbosity);
    assert!(get_debug(&verbosity));
    set_debug(&mut verbosity);
    assert!(get_debug(&verbosity));
}

#[test]
fn errors_say_what_went_wrong() {
    assert_eq!(
        Error::PackageNotInWorkspace { id: "a".to_string(), ws: "/ws".to_string() }
            .message()
            .unwrap(),
        "package a is not inside workspace /ws"
    );
    assert_eq!(
        Error::PackageNotFound { id: "a".to_string() }.message().unwrap(),
        "unable to find package a"
    );
    assert_eq!(Error::EmptyWorkspace.message().unwrap(), "did not find any package");
    assert_eq!(Error::Publish("a".to_string()).message().unwrap(), "unable to publish package a");
    assert_eq!(
        Error::MustContainPercentN("<TO>".to_string()).message().unwrap(),
        "<TO> value must contain '%n'"
    );
    assert_eq!(
        Error::NoRemote { remote: "origin".to_string(), branch: "main".to_string() }
            .message()
            .unwrap(),
        "remote origin not found or branch main not in origin"
    );
    assert_eq!(
        Error::BehindRemote { upstream: "origin/main".to_string(), branch: "main".to_string() }
            .message()
            .unwrap(),
        "local branch main is behind upstream origin/main"
    );
    assert_eq!(
        Error::NotTagged("v1".to_string(), "o".to_string(), "e".to_string()).message().unwrap(),
        "unable to tag v1, out = o, err = e"
    );
    assert_eq!(
        Error::BadConfigGetOutput("x".to_string()).message().unwrap(),
        "could not understand 'cargo config get' output: x"
    );
    let wrapped = Version::parse("x").unwrap_err();
    assert!(wrapped.message().is_none());
}
