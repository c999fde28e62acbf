//! Read-only access to a git repository, through the `git2` crate.
//!
//! Everything a repository returns depends on what is on disk, so none of
//! these results is pinned by a contract: the verified callers state what
//! holds of every outcome, and the walk logic takes the returned values as
//! arguments.

use vstd::prelude::*;

verus! {

#[verifier::external_type_specification]
#[verifier::external_body]
pub struct ExRepository(git2::Repository);

/// Relies on `git2::Repository::tag_names`: the tag names matching the
/// glob, each `None` where a name is not valid text.
#[verifier::external_body]
pub(crate) fn repo_tag_names(repo: &git2::Repository, glob: &str) -> (r: Option<
    Vec<Option<String>>,
>) {
    match repo.tag_names(Some(glob)) {
        Ok(arr) => Some(arr.iter().map(|t| t.ok().flatten().map(|s| s.to_string())).collect()),
        Err(_) => None,
    }
}

/// Relies on `git2::Repository::revparse_single` and `git2::Object::id`:
/// the id of the object a revision string resolves to, `None` where it
/// resolves to nothing.
#[verifier::external_body]
pub(crate) fn repo_revparse_id(repo: &git2::Repository, rev: &str) -> (r: Option<String>) {
    repo.revparse_single(rev).ok().map(|obj| obj.id().to_string())
}

/// Relies on `git2::Repository::revwalk` and `git2::Revwalk::push_range`:
/// the commit ids reachable from `to` but not from `from`, most recent
/// first in the walk's order.
#[verifier::external_body]
pub(crate) fn repo_walk_range(repo: &git2::Repository, from: &str, to: &str) -> (r: Option<
    Vec<String>,
>) {
    let mut rw = repo.revwalk().ok()?;
    rw.push_range(format!("{}..{}", from, to).as_str()).ok()?;
    rw.map(|step| step.map(|oid| oid.to_string())).collect::<Result<Vec<String>, _>>().ok()
}

/// Relies on `git2::Repository::revwalk`, `git2::Oid::from_str` and
/// `git2::Revwalk::push`: the full ancestry of `to`, most recent first in
/// the walk's order.
#[verifier::external_body]
pub(crate) fn repo_walk_from(repo: &git2::Repository, to: &str) -> (r: Option<Vec<String>>) {
    let mut rw = repo.revwalk().ok()?;
    rw.push(git2::Oid::from_str(to).ok()?).ok()?;
    rw.map(|step| step.map(|oid| oid.to_string())).collect::<Result<Vec<String>, _>>().ok()
}

/// Relies on `git2::Repository::find_commit`, `git2::Commit::parent_count`
/// and `git2::Commit::message`: how many parents the commit has, and its
/// message where it is valid text.
#[verifier::external_body]
pub(crate) fn commit_basics(repo: &git2::Repository, id: &str) -> (r: Option<
    (u64, Option<String>),
>) {
    let commit = repo.find_commit(git2::Oid::from_str(id).ok()?).ok()?;
    Some((commit.parent_count() as u64, commit.message().ok().map(|m| m.to_string())))
}

/// Relies on `git2::Repository::diff_tree_to_tree` and `git2::Diff::print`
/// with the name-only format, diffing the commit against its first parent:
/// one entry per changed file, holding the file's path.
#[verifier::external_body]
pub(crate) fn commit_changed_files(repo: &git2::Repository, id: &str) -> (r: Option<
    Vec<Vec<u8>>,
>) {
    let commit = repo.find_commit(git2::Oid::from_str(id).ok()?).ok()?;
    let tree = commit.tree().ok()?;
    let prev = repo.revparse_single(format!("{}^", id).as_str()).ok()?;
    let prev_tree = prev.peel(git2::ObjectType::Tree).ok()?;
    let mut opts = git2::DiffOptions::new();
    let diff = repo.diff_tree_to_tree(prev_tree.as_tree(), Some(&tree), Some(&mut opts)).ok()?;
    let mut names: Vec<Vec<u8>> = Vec::new();
    diff.print(
        git2::DiffFormat::NameOnly,
        |_delta, _hunk, line| {
            names.push(line.content().to_vec());
            true
        },
    ).ok()?;
    Some(names)
}

} // verus!
