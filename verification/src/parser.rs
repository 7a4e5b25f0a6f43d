//! The matchers of the import block: a blank line, a comment, an import
//! statement. Each looks at the start of a text and either fails, or gives
//! what it read and the text that follows.

pub mod comment;
pub mod empty_line;
pub mod import;
pub mod rereading;

pub use comment::{comment, multi_line_comment, single_line_comment};
pub use empty_line::empty_line;
pub use import::{import_statement, js_string};

use vstd::prelude::*;

use crate::text::{leading, lemma_leading, CharClass};

verus! {

/// What a matcher gives where it succeeds.
pub struct Matched<T> {
    /// The text that follows what was read.
    pub rest: Seq<char>,
    /// What was read.
    pub value: T,
}

/// The matcher does not recognise the start of the text.
#[derive(Debug, Clone, Copy, PartialEq, Eq, Structural)]
pub struct NoMatch;

/// Whether `rest` is what is left of `s` after one character at least.
pub open spec fn follows(rest: Seq<char>, s: Seq<char>) -> bool {
    rest.len() < s.len() && rest == s.skip(s.len() - rest.len())
}

/// `s` without the spaces and tabs at its start.
pub open spec fn skip_blanks(s: Seq<char>) -> Seq<char> {
    s.skip(leading(s, CharClass::Blank) as int)
}

/// What is left after the spaces and tabs is a suffix of `s`.
pub proof fn lemma_skip_blanks(s: Seq<char>)
    ensures
        skip_blanks(s).len() <= s.len(),
        skip_blanks(s) == s.skip(s.len() - skip_blanks(s).len()),
{
    lemma_leading(s, CharClass::Blank);
}

} // verus!
