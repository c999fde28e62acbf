use tagver::classify::{
    classify_commit_list, classify_message, combine, is_not_file_on_path, touches_path,
    Classification, CommitRecord,
};
use tagver::template::{render_template, Vars};
use tagver::version::Version;

fn labels(xs: &[&str]) -> Vec<String> {
    xs.iter().map(|s| s.to_string()).collect()
}

fn commit(parents: u64, files: &[&str], message: &str) -> CommitRecord {
    CommitRecord {
        parent_count: parents,
        files: files.iter().map(|f| f.as_bytes().to_vec()).collect(),
        message: Some(message.to_string()),
    }
}

#[test]
fn combine_keeps_dominant_classification() {
    assert_eq!(
        combine(Classification::Minor, Classification::Patch),
        Classification::Minor
    );
    assert_eq!(
        combine(Classification::Patch, Classification::Major),
        Classification::Major
    );
    assert_eq!(
        combine(Classification::NoChange, Classification::NoChange),
        Classification::NoChange
    );
}

#[test]
fn message_with_minor_type_is_minor() {
    let c = classify_message("feat: add x", &labels(&[]), &labels(&["feat"]), &labels(&["fix"]));
    assert_eq!(c, Classification::Minor);
}

#[test]
fn message_with_patch_type_is_patch() {
    let c = classify_message("fix: a", &labels(&[]), &labels(&["feat"]), &labels(&["fix"]));
    assert_eq!(c, Classification::Patch);
}

#[test]
fn breaking_marker_forces_major() {
    let c = classify_message(
        "feat!: breaking change",
        &labels(&[]),
        &labels(&["feat"]),
        &labels(&["fix"]),
    );
    assert_eq!(c, Classification::Major);
}

#[test]
fn scoped_breaking_marker_forces_major() {
    let c = classify_message(
        "feat(ui)!: redo everything",
        &labels(&[]),
        &labels(&["feat"]),
        &labels(&["fix"]),
    );
    assert_eq!(c, Classification::Major);
}

#[test]
fn scoped_key_is_matched_with_its_scope() {
    let minors = labels(&["feat(ui)"]);
    assert_eq!(
        classify_message("feat(ui): tweak", &labels(&[]), &minors, &labels(&[])),
        Classification::Minor
    );
    assert_eq!(
        classify_message("feat(core): tweak", &labels(&[]), &minors, &labels(&[])),
        Classification::NoChange
    );
}

#[test]
fn major_type_set_forces_major_without_marker() {
    let c = classify_message(
        "chore: redo build",
        &labels(&["chore"]),
        &labels(&["feat"]),
        &labels(&["fix"]),
    );
    assert_eq!(c, Classification::Major);
}

#[test]
fn malformed_message_contributes_nothing() {
    let c = classify_message(
        "just some words",
        &labels(&[]),
        &labels(&["feat"]),
        &labels(&["fix"]),
    );
    assert_eq!(c, Classification::NoChange);
}

#[test]
fn breaking_change_footer_forces_major() {
    let msg = "feat: add x\n\nBREAKING CHANGE: the config format changed";
    let c = classify_message(msg, &labels(&[]), &labels(&["feat"]), &labels(&["fix"]));
    assert_eq!(c, Classification::Major);
}

#[test]
fn prefix_check_on_changed_files() {
    let path = b"sub/dir".to_vec();
    assert!(!is_not_file_on_path(&b"sub/dir/file.rs\n".to_vec(), &path));
    assert!(is_not_file_on_path(&b"other/file.rs\n".to_vec(), &path));
    assert!(touches_path(
        &vec![b"other/a\n".to_vec(), b"sub/dir/b\n".to_vec()],
        &path
    ));
    assert!(!touches_path(&vec![b"other/a\n".to_vec()], &path));
    // The empty path scopes nothing out.
    assert!(touches_path(&vec![b"anything\n".to_vec()], &Vec::new()));
}

#[test]
fn no_tag_single_feat_commit_yields_minor_and_next_0_1_0() {
    // A repository with no tags and one reachable root commit.
    let recs = vec![commit(0, &[], "feat: add x")];
    let c = classify_commit_list(
        &recs,
        &Vec::new(),
        false,
        &labels(&[]),
        &labels(&["feat"]),
        &labels(&["fix"]),
    )
    .unwrap();
    assert_eq!(c, Classification::Minor);
    let next = Version::new(0, 0, 0).apply(c);
    assert_eq!(next, Version::new(0, 1, 0));
    let mut vars = Vars::new();
    vars.insert("version", next.to_version_string().as_str());
    assert_eq!(render_template("v{version}", &vars), "v0.1.0");
}

#[test]
fn minor_dominates_patch_in_bounded_range() {
    // Commits after tag v1.2.3: a fix and a feature.
    let recs = vec![
        commit(1, &["src/a.rs\n"], "fix: a"),
        commit(1, &["src/b.rs\n"], "feat: b"),
    ];
    let c = classify_commit_list(
        &recs,
        &Vec::new(),
        true,
        &labels(&[]),
        &labels(&["feat"]),
        &labels(&["fix"]),
    )
    .unwrap();
    assert_eq!(c, Classification::Minor);
    let next = Version::new(1, 2, 3).apply(c);
    assert_eq!(next.to_version_string(), "1.3.0");
}

#[test]
fn breaking_commit_yields_major_and_stops_the_walk() {
    // The walk must end at the breaking commit: the later record's
    // unreadable message would otherwise fail the walk.
    let unreadable = CommitRecord { parent_count: 1, files: vec![b"x\n".to_vec()], message: None };
    let recs = vec![commit(1, &["src/a.rs\n"], "feat!: breaking change"), unreadable];
    let c = classify_commit_list(
        &recs,
        &Vec::new(),
        true,
        &labels(&[]),
        &labels(&["feat"]),
        &labels(&["fix"]),
    )
    .unwrap();
    assert_eq!(c, Classification::Major);
    let next = Version::new(1, 2, 3).apply(c);
    assert_eq!(next.to_version_string(), "2.0.0");
}

#[test]
fn unreadable_message_fails_the_walk() {
    let unreadable = CommitRecord { parent_count: 1, files: vec![b"x\n".to_vec()], message: None };
    let recs = vec![unreadable];
    let r = classify_commit_list(
        &recs,
        &Vec::new(),
        true,
        &labels(&[]),
        &labels(&["feat"]),
        &labels(&["fix"]),
    );
    assert!(r.is_none());
}

#[test]
fn commit_outside_scoped_path_is_skipped_entirely() {
    // A breaking commit touching only files outside the scoped sub-path
    // must not influence classification.
    let recs = vec![
        commit(1, &["other/unrelated.rs\n"], "feat!: unrelated breaking"),
        commit(1, &["scoped/lib.rs\n"], "fix: scoped change"),
    ];
    let path = b"scoped".to_vec();
    let c = classify_commit_list(
        &recs,
        &path,
        true,
        &labels(&[]),
        &labels(&["feat"]),
        &labels(&["fix"]),
    )
    .unwrap();
    assert_eq!(c, Classification::Patch);
}

#[test]
fn skipped_breaking_commit_alone_leaves_no_change() {
    let recs = vec![commit(1, &["other/unrelated.rs\n"], "feat!: unrelated breaking")];
    let path = b"scoped".to_vec();
    let c = classify_commit_list(
        &recs,
        &path,
        true,
        &labels(&[]),
        &labels(&["feat"]),
        &labels(&["fix"]),
    )
    .unwrap();
    assert_eq!(c, Classification::NoChange);
}

#[test]
fn bounded_walk_continues_past_root_commit() {
    let recs = vec![commit(0, &[], "fix: root"), commit(1, &["a\n"], "feat: later")];
    let c = classify_commit_list(
        &recs,
        &Vec::new(),
        true,
        &labels(&[]),
        &labels(&["feat"]),
        &labels(&["fix"]),
    )
    .unwrap();
    assert_eq!(c, Classification::Minor);
}

#[test]
fn unbounded_walk_stops_at_root_commit() {
    let recs = vec![commit(0, &[], "fix: root"), commit(1, &["a\n"], "feat: later")];
    let c = classify_commit_list(
        &recs,
        &Vec::new(),
        false,
        &labels(&[]),
        &labels(&["feat"]),
        &labels(&["fix"]),
    )
    .unwrap();
    assert_eq!(c, Classification::Patch);
}

#[test]
fn empty_range_leaves_version_unchanged() {
    let recs: Vec<CommitRecord> = Vec::new();
    let c = classify_commit_list(
        &recs,
        &Vec::new(),
        true,
        &labels(&[]),
        &labels(&["feat"]),
        &labels(&["fix"]),
    )
    .unwrap();
    assert_eq!(c, Classification::NoChange);
    assert_eq!(Version::new(1, 2, 3).apply(c), Version::new(1, 2, 3));
}
