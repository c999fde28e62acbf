//! Parsing of conventional commit messages, through the `git-conventional`
//! crate.
//!
//! What a message parses to is a function of its text alone; the result is
//! named by `conv_parse`, and everything after the parse is verified
//! against that name.

use vstd::prelude::*;

use crate::classify::ConvHeader;

verus! {

/// The parse of a commit message under the conventional-commit grammar:
/// `None` where the message does not conform, otherwise the type token,
/// optional scope, and breaking marker of its header. A breaking marker is
/// either a `!` after the type and scope or a `BREAKING CHANGE` footer.
pub uninterp spec fn conv_parse(msg: Seq<char>) -> Option<ConvHeader>;

/// The executable image of a parsed conventional commit header.
pub struct ConventionalParts {
    pub type_label: String,
    pub scope: Option<String>,
    pub breaking: bool,
}

impl View for ConventionalParts {
    type V = ConvHeader;

    open spec fn view(&self) -> ConvHeader {
        ConvHeader {
            ty: self.type_label@,
            scope: match self.scope {
                Some(sc) => Some(sc@),
                None => None,
            },
            breaking: self.breaking,
        }
    }
}

/// Relies on `git_conventional::Commit::parse`, and on `Commit::type_`,
/// `Commit::scope` and `Commit::breaking` of the parsed value: the parse
/// depends on the message text alone, succeeds exactly on messages that
/// conform to the conventional-commit grammar, and yields the header's
/// type, scope and breaking marker.
#[verifier::external_body]
pub fn parse_conventional(msg: &str) -> (r: Option<ConventionalParts>)
    ensures
        (match r {
            Some(p) => conv_parse(msg@) == Some(p@),
            None => conv_parse(msg@) is None,
        }),
{
    match git_conventional::Commit::parse(msg) {
        Ok(c) => Some(
            ConventionalParts {
                type_label: c.type_().as_str().to_string(),
                scope: c.scope().map(|s| s.as_str().to_string()),
                breaking: c.breaking(),
            },
        ),
        Err(_) => None,
    }
}

} // verus!
