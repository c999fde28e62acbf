//! Next-version resolution for git repositories.
//!
//! The crate computes the next semantic version of a project from (a) the
//! highest version already published as a repository tag matching a naming
//! template and (b) a classification of the conventional commits made since
//! that tag. The result is rendered through an output template.
//!
//! The pure logic — template compilation and rendering (`template`),
//! version parsing, printing and incrementing (`version`), and the
//! classification of commit ranges (`classify`) — is verified throughout.
//! The calls into the repository, the regular-expression engine and the
//! conventional-commit parser stand behind small trusted wrappers
//! (`gitrepo`, `rex`, `conventional`), and `engine` drives the run.

pub mod classify;
pub mod engine;
pub mod errors;
pub mod conventional;
pub mod gitrepo;
pub mod rex;
pub mod template;
pub mod version;
