use tagver::classify::Classification;
use tagver::version::{parse_version, Version};

#[test]
fn parse_simple_version() {
    let v = parse_version("1.2.3").unwrap();
    assert_eq!(v, Version { major: 1, minor: 2, patch: 3 });
}

#[test]
fn parse_zero_version() {
    let v = parse_version("0.0.0").unwrap();
    assert_eq!(v, Version { major: 0, minor: 0, patch: 0 });
}

#[test]
fn parse_rejects_leading_zero() {
    assert!(parse_version("01.2.3").is_none());
    assert!(parse_version("1.02.3").is_none());
    assert!(parse_version("1.2.00").is_none());
}

#[test]
fn parse_rejects_wrong_shape() {
    assert!(parse_version("").is_none());
    assert!(parse_version("1").is_none());
    assert!(parse_version("1.2").is_none());
    assert!(parse_version("1.2.3.4").is_none());
    assert!(parse_version("1..3").is_none());
    assert!(parse_version("a.b.c").is_none());
    assert!(parse_version("1.2.c").is_none());
    assert!(parse_version("-1.2.3").is_none());
}

#[test]
fn parse_bounds() {
    let v = parse_version("18446744073709551615.0.0").unwrap();
    assert_eq!(v.major, u64::MAX);
    assert!(parse_version("18446744073709551616.0.0").is_none());
}

#[test]
fn render_version_string() {
    assert_eq!(Version::new(0, 0, 0).to_version_string(), "0.0.0");
    assert_eq!(Version::new(10, 2, 33).to_version_string(), "10.2.33");
    assert_eq!(
        Version::new(u64::MAX, 0, 1).to_version_string(),
        "18446744073709551615.0.1"
    );
}

#[test]
fn version_order() {
    let a = Version::new(1, 2, 3);
    let b = Version::new(1, 3, 0);
    assert!(b.ge(&a));
    assert!(!a.ge(&b));
    assert!(a.ge(&a));
    assert!(Version::new(2, 0, 0).ge(&Version::new(1, 9, 9)));
}

#[test]
fn apply_major_resets_lower_fields() {
    let v = Version::new(1, 2, 3).apply(Classification::Major);
    assert_eq!(v, Version::new(2, 0, 0));
}

#[test]
fn apply_minor_resets_patch() {
    let v = Version::new(1, 2, 3).apply(Classification::Minor);
    assert_eq!(v, Version::new(1, 3, 0));
}

#[test]
fn apply_patch_increments_patch() {
    let v = Version::new(1, 2, 3).apply(Classification::Patch);
    assert_eq!(v, Version::new(1, 2, 4));
}

#[test]
fn apply_nothing_keeps_version() {
    let v = Version::new(1, 2, 3).apply(Classification::NoChange);
    assert_eq!(v, Version::new(1, 2, 3));
}
