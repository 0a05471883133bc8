use cargo_workspaces::bump::{custom_pre, inc_major, inc_minor, inc_patch, inc_preid};
use cargo_workspaces::version::{Identifier, Version};

#[test]
fn test_inc_patch() {
    let v = inc_patch(Version::parse("0.7.2").unwrap());
    assert_eq!(v.to_string(), "0.7.3");
}

#[test]
fn test_inc_patch_on_prepatch() {
    let v = inc_patch(Version::parse("0.7.2-rc.0").unwrap());
    assert_eq!(v.to_string(), "0.7.2");
}

#[test]
fn test_inc_patch_on_preminor() {
    let v = inc_patch(Version::parse("0.7.0-rc.0").unwrap());
    assert_eq!(v.to_string(), "0.7.0");
}

#[test]
fn test_inc_patch_on_premajor() {
    let v = inc_patch(Version::parse("1.0.0-rc.0").unwrap());
    assert_eq!(v.to_string(), "1.0.0");
}

#[test]
fn test_inc_minor() {
    let v = inc_minor(Version::parse("0.7.2").unwrap());
    assert_eq!(v.to_string(), "0.8.0");
}

#[test]
fn test_inc_minor_on_prepatch() {
    let v = inc_minor(Version::parse("0.7.2-rc.0").unwrap());
    assert_eq!(v.to_string(), "0.8.0");
}

#[test]
fn test_inc_minor_on_preminor() {
    let v = inc_minor(Version::parse("0.7.0-rc.0").unwrap());
    assert_eq!(v.to_string(), "0.7.0");
}

#[test]
fn test_inc_minor_on_premajor() {
    let v = inc_minor(Version::parse("1.0.0-rc.0").unwrap());
    assert_eq!(v.to_string(), "1.0.0");
}

#[test]
fn test_inc_major() {
    let v = inc_major(Version::parse("0.7.2").unwrap());
    assert_eq!(v.to_string(), "1.0.0");
}

#[test]
fn test_inc_major_on_prepatch() {
    let v = inc_major(Version::parse("0.7.2-rc.0").unwrap());
    assert_eq!(v.to_string(), "1.0.0");
}

#[test]
fn test_inc_major_on_preminor() {
    let v = inc_major(Version::parse("0.7.0-rc.0").unwrap());
    assert_eq!(v.to_string(), "1.0.0");
}

#[test]
fn test_inc_major_on_premajor_with_patch() {
    let v = inc_major(Version::parse("1.0.1-rc.0").unwrap());
    assert_eq!(v.to_string(), "2.0.0");
}

#[test]
fn test_inc_major_on_premajor() {
    let v = inc_major(Version::parse("1.0.0-rc.0").unwrap());
    assert_eq!(v.to_string(), "1.0.0");
}

#[test]
fn version_test_inc_preid() {
    let v = inc_preid(
        &Version::parse("3.0.0").unwrap(),
        Identifier::AlphaNumeric("beta".to_string()),
    );
    assert_eq!(v.to_string(), "3.0.1-beta.0");
}

#[test]
fn version_test_inc_preid_on_alpha() {
    let v = inc_preid(
        &Version::parse("3.0.0-alpha.19").unwrap(),
        Identifier::AlphaNumeric("beta".to_string()),
    );
    assert_eq!(v.to_string(), "3.0.0-beta.0");
}

#[test]
fn version_test_inc_preid_on_num() {
    let v = inc_preid(
        &Version::parse("3.0.0-11.19").unwrap(),
        Identifier::AlphaNumeric("beta".to_string()),
    );
    assert_eq!(v.to_string(), "3.0.0-beta.0");
}

#[test]
fn version_test_custom_pre() {
    let v = custom_pre(&Version::parse("3.0.0").unwrap());
    assert_eq!(v.0, Identifier::AlphaNumeric("alpha".to_string()));
    assert_eq!(v.1.to_string(), "3.0.1-alpha.0");
}

#[test]
fn version_test_custom_pre_on_single_alpha() {
    let v = custom_pre(&Version::parse("3.0.0-a").unwrap());
    assert_eq!(v.0, Identifier::AlphaNumeric("a".to_string()));
    assert_eq!(v.1.to_string(), "3.0.0-a.0");
}

#[test]
fn version_test_custom_pre_on_single_alpha_with_second_num() {
    let v = custom_pre(&Version::parse("3.0.0-a.11").unwrap());
    assert_eq!(v.0, Identifier::AlphaNumeric("a".to_string()));
    assert_eq!(v.1.to_string(), "3.0.0-a.12");
}

#[test]
fn version_test_custom_pre_on_second_alpha() {
    let v = custom_pre(&Version::parse("3.0.0-a.b").unwrap());
    assert_eq!(v.0, Identifier::AlphaNumeric("a".to_string()));
    assert_eq!(v.1.to_string(), "3.0.0-a.0");
}

#[test]
fn version_test_custom_pre_on_second_alpha_with_num() {
    let v = custom_pre(&Version::parse("3.0.0-a.b.1").unwrap());
    assert_eq!(v.0, Identifier::AlphaNumeric("a".to_string()));
    assert_eq!(v.1.to_string(), "3.0.0-a.0");
}

#[test]
fn version_test_custom_pre_on_single_num() {
    let v = custom_pre(&Version::parse("3.0.0-11").unwrap());
    assert_eq!(v.0, Identifier::Numeric(11));
    assert_eq!(v.1.to_string(), "3.0.0-12");
}

#[test]
fn version_test_custom_pre_on_single_num_with_second_alpha() {
    let v = custom_pre(&Version::parse("3.0.0-11.a").unwrap());
    assert_eq!(v.0, Identifier::Numeric(11));
    assert_eq!(v.1.to_string(), "3.0.0-12.a");
}

#[test]
fn version_test_custom_pre_on_second_num() {
    let v = custom_pre(&Version::parse("3.0.0-11.20").unwrap());
    assert_eq!(v.0, Identifier::Numeric(11));
    assert_eq!(v.1.to_string(), "3.0.0-11.21");
}

#[test]
fn version_test_custom_pre_on_multiple_num() {
    let v = custom_pre(&Version::parse("3.0.0-11.20.a.55.c").unwrap());
    assert_eq!(v.0, Identifier::Numeric(11));
    assert_eq!(v.1.to_string(), "3.0.0-11.20.a.56.c");
}
