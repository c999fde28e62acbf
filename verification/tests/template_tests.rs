use tagver::engine::{add_path_to_vars, parse_key_val, register_result_vars};
use tagver::errors::EngineError;
use tagver::template::{
    compile_extraction_pattern, compile_tag_glob, render_template, Vars,
};
use tagver::version::Version;

#[test]
fn render_fills_known_placeholder() {
    let mut vars = Vars::new();
    vars.insert("env", "prod");
    assert_eq!(render_template("v{version}-{env}", &vars), "v{version}-prod");
}

#[test]
fn render_replaces_every_occurrence() {
    let mut vars = Vars::new();
    vars.insert("x", "ab");
    assert_eq!(render_template("{x}/{x}/{x}", &vars), "ab/ab/ab");
}

#[test]
fn render_leaves_unknown_placeholder_verbatim() {
    let vars = Vars::new();
    assert_eq!(render_template("v{version}", &vars), "v{version}");
}

#[test]
fn render_without_placeholders_is_identity() {
    let mut vars = Vars::new();
    vars.insert("version", "1.2.3");
    vars.insert("env", "prod");
    assert_eq!(render_template("plain text, no braces", &vars), "plain text, no braces");
}

#[test]
fn insert_overwrites_existing_binding() {
    let mut vars = Vars::new();
    vars.insert("env", "dev");
    vars.insert("env", "prod");
    assert_eq!(vars.len(), 1);
    assert_eq!(render_template("{env}", &vars), "prod");
}

#[test]
fn compile_pattern_embeds_version_capture() {
    let vars = Vars::new();
    assert_eq!(
        compile_extraction_pattern("v{version}", &vars),
        r"v((0|[1-9]\d*)\.(0|[1-9]\d*)\.(0|[1-9]\d*))"
    );
}

#[test]
fn compile_pattern_substitutes_known_variable() {
    let mut vars = Vars::new();
    vars.insert("env", "prod");
    assert_eq!(
        compile_extraction_pattern("v{version}-{env}", &vars),
        r"v((0|[1-9]\d*)\.(0|[1-9]\d*)\.(0|[1-9]\d*))-prod"
    );
}

#[test]
fn compile_pattern_wildcards_unknown_variable() {
    let vars = Vars::new();
    assert_eq!(
        compile_extraction_pattern("v{version}-{env}", &vars),
        r"v((0|[1-9]\d*)\.(0|[1-9]\d*)\.(0|[1-9]\d*))-.*?"
    );
}

#[test]
fn compile_pattern_without_version_placeholder_succeeds() {
    let vars = Vars::new();
    assert_eq!(compile_extraction_pattern("release-{env}", &vars), "release-.*?");
    assert_eq!(compile_extraction_pattern("plain", &vars), "plain");
}

#[test]
fn compile_glob_wildcards_every_placeholder() {
    assert_eq!(compile_tag_glob("v{version}-{env}"), "v*-*");
    assert_eq!(compile_tag_glob("v{version}"), "v*");
    assert_eq!(compile_tag_glob("plain"), "plain");
}

#[test]
fn parse_key_val_splits_at_first_equals() {
    assert_eq!(parse_key_val("a=b").unwrap(), ("a".to_string(), "b".to_string()));
    assert_eq!(parse_key_val("a=b=c").unwrap(), ("a".to_string(), "b=c".to_string()));
    assert_eq!(parse_key_val("=v").unwrap(), ("".to_string(), "v".to_string()));
}

#[test]
fn parse_key_val_rejects_missing_equals() {
    assert_eq!(parse_key_val("novalue").unwrap_err(), EngineError::InvalidKeyValue);
}

#[test]
fn path_vars_register_both_indexing_forms() {
    let mut vars = Vars::new();
    let comps = vec!["a".to_string(), "b".to_string(), "c".to_string()];
    add_path_to_vars(&comps, &mut vars);
    assert_eq!(render_template("{path[1]}", &vars), "c");
    assert_eq!(render_template("{path[-1]}", &vars), "c");
    assert_eq!(render_template("{path[2]}", &vars), "b");
    assert_eq!(render_template("{path[-2]}", &vars), "b");
    assert_eq!(render_template("{path[3]}", &vars), "a");
    assert_eq!(render_template("{path[-3]}", &vars), "a");
}

#[test]
fn user_variable_wins_over_path_variable() {
    let mut vars = Vars::new();
    vars.insert("path[1]", "keep-me");
    let comps = vec!["a".to_string(), "b".to_string()];
    add_path_to_vars(&comps, &mut vars);
    assert_eq!(render_template("{path[1]}", &vars), "keep-me");
    assert_eq!(render_template("{path[2]}", &vars), "a");
}

#[test]
fn result_vars_cover_the_output_template() {
    let mut vars = Vars::new();
    let previous = Version::new(1, 2, 3);
    let next = Version::new(1, 3, 0);
    register_result_vars(&mut vars, "v{version}", &previous, "v1.2.3", &next);
    assert_eq!(
        render_template("{previous-version} {previous-tag} {version} {tag}", &vars),
        "1.2.3 v1.2.3 1.3.0 v1.3.0"
    );
}

#[test]
fn error_descriptions_are_stable() {
    assert_eq!(
        EngineError::InvalidKeyValue.describe(),
        "invalid KEY=value: no `=` found"
    );
    assert_eq!(
        EngineError::InvalidPattern.describe(),
        "template compiles to an invalid pattern"
    );
}
