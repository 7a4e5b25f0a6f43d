//! The statements that the head of a file is made of, and their source text.

pub mod comment;
pub mod imports;

pub use comment::{Comment, CommentType, CommentView};
pub use imports::{ImportStatement, ImportType, ImportView};

use vstd::prelude::*;

verus! {

/// A statement that can be written back as source text.
pub trait Statement {
    /// The source text of the statement.
    spec fn rendering(&self) -> Seq<char>;

    /// Writes the statement as source text.
    fn code(&self) -> (r: String)
        ensures
            r@ == self.rendering(),
    ;
}

} // verus!
