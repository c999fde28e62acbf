use tagver::engine::select_version;
use tagver::template::{compile_extraction_pattern, Vars};
use tagver::version::Version;

fn tags(names: &[&str]) -> Vec<Option<String>> {
    names.iter().map(|n| Some(n.to_string())).collect()
}

#[test]
fn no_tags_resolve_to_zero() {
    let vars = Vars::new();
    let pattern = compile_extraction_pattern("v{version}", &vars);
    let (v, tag) = select_version(&Vec::new(), pattern.as_str());
    assert_eq!(v, Version::new(0, 0, 0));
    assert_eq!(tag, "");
}

#[test]
fn greatest_embedded_version_governs() {
    let vars = Vars::new();
    let pattern = compile_extraction_pattern("v{version}", &vars);
    let list = tags(&["v0.3.0", "v1.10.2", "v1.9.9", "v0.0.1"]);
    let (v, tag) = select_version(&list, pattern.as_str());
    assert_eq!(v, Version::new(1, 10, 2));
    assert_eq!(tag, "v1.10.2");
}

#[test]
fn non_version_tags_are_skipped() {
    let vars = Vars::new();
    let pattern = compile_extraction_pattern("v{version}", &vars);
    let list = tags(&["nightly", "v1.2.3", "v1.2.x"]);
    let (v, tag) = select_version(&list, pattern.as_str());
    assert_eq!(v, Version::new(1, 2, 3));
    assert_eq!(tag, "v1.2.3");
}

#[test]
fn unreadable_tag_names_are_skipped() {
    let vars = Vars::new();
    let pattern = compile_extraction_pattern("v{version}", &vars);
    let list = vec![None, Some("v0.2.0".to_string()), None];
    let (v, tag) = select_version(&list, pattern.as_str());
    assert_eq!(v, Version::new(0, 2, 0));
    assert_eq!(tag, "v0.2.0");
}

#[test]
fn equal_versions_keep_the_last_enumerated_tag() {
    // Selection replaces on greater-or-equal, so among equal candidates
    // the last one enumerated wins.
    let vars = Vars::new();
    let pattern = compile_extraction_pattern("{env}-{version}", &vars);
    let list = tags(&["a-1.0.0", "b-1.0.0"]);
    let (v, tag) = select_version(&list, pattern.as_str());
    assert_eq!(v, Version::new(1, 0, 0));
    assert_eq!(tag, "b-1.0.0");
}

#[test]
fn substituted_variable_narrows_the_candidates() {
    // With `env` bound to `prod`, only the prod tag satisfies the
    // extraction pattern; the dev tag is no version candidate.
    let mut vars = Vars::new();
    vars.insert("env", "prod");
    let pattern = compile_extraction_pattern("v{version}-{env}", &vars);
    let list = tags(&["v1.0.0-prod", "v1.0.0-dev"]);
    let (v, tag) = select_version(&list, pattern.as_str());
    assert_eq!(v, Version::new(1, 0, 0));
    assert_eq!(tag, "v1.0.0-prod");
}

#[test]
fn higher_dev_version_does_not_outrank_prod() {
    let mut vars = Vars::new();
    vars.insert("env", "prod");
    let pattern = compile_extraction_pattern("v{version}-{env}", &vars);
    let list = tags(&["v1.0.0-prod", "v9.9.9-dev"]);
    let (v, tag) = select_version(&list, pattern.as_str());
    assert_eq!(v, Version::new(1, 0, 0));
    assert_eq!(tag, "v1.0.0-prod");
}

#[test]
fn template_validity_is_reported_not_crashed() {
    let vars = Vars::new();
    assert!(tagver::engine::extraction_pattern_is_valid("v{version}", &vars));
    assert!(tagver::engine::extraction_pattern_is_valid("release-{env}", &vars));
    // An unbalanced group in the template text survives compilation and
    // is rejected cleanly at the pattern stage.
    assert!(!tagver::engine::extraction_pattern_is_valid("(v{version}", &vars));
}
