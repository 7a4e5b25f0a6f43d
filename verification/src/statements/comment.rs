use vstd::prelude::*;
use vstd::std_specs::cmp::PartialEqSpecImpl;

use super::Statement;
use crate::text::{find, lemma_trim_end, run_start, slice_string, to_chars, trim_end, CharClass};

verus! {

/// The two forms of a comment.
#[derive(Debug, PartialEq, Eq, Clone, Copy, Structural)]
pub enum CommentType {
    /// From `//` to the end of the line.
    Single,
    /// From `/*` to the next `*/`.
    Multi,
}

/// A comment as a mathematical value.
pub struct CommentView {
    /// The text between the delimiters.
    pub data: Seq<char>,
    /// The form of the comment.
    pub ty: CommentType,
}

/// A comment: the text between its delimiters, and its form.
#[derive(Debug)]
pub struct Comment {
    pub data: String,
    pub ty: CommentType,
}

impl View for Comment {
    type V = CommentView;

    open spec fn view(&self) -> CommentView {
        CommentView { data: self.data@, ty: self.ty }
    }
}

/// The source text of a comment. A single-line comment loses the whitespace
/// at its end; a multi-line comment is written as it was read.
pub open spec fn comment_code(c: CommentView) -> Seq<char> {
    match c.ty {
        CommentType::Single => "//"@ + trim_end(c.data),
        CommentType::Multi => "/*"@ + c.data + "*/"@,
    }
}

impl CommentView {
    /// Whether the comment is one that a matcher gives: a single-line
    /// comment has some text and no line break; in a multi-line comment the
    /// end `*/` comes first where it is written behind the text.
    pub open spec fn is_wellformed(self) -> bool {
        match self.ty {
            CommentType::Single => self.data.len() > 0 && forall|j: int|
                0 <= j < self.data.len() ==> CharClass::LineText.holds(#[trigger] self.data[j]),
            CommentType::Multi => find(self.data + "*/"@, "*/"@) == Some(self.data.len() as int),
        }
    }

    /// Whether the source text of the comment reads as a comment again: a
    /// single-line comment must hold more than whitespace.
    pub open spec fn is_readable(self) -> bool {
        self.is_wellformed() && (self.ty == CommentType::Single ==> trim_end(self.data).len() > 0)
    }

    /// The comment as its source text shows it: a single-line comment
    /// without the whitespace at its end.
    pub open spec fn written(self) -> CommentView {
        match self.ty {
            CommentType::Single => CommentView { data: trim_end(self.data), ty: self.ty },
            CommentType::Multi => self,
        }
    }
}

/// The comments of `list`, each as its source text shows it.
pub open spec fn written_comments(list: Seq<CommentView>) -> Seq<CommentView> {
    Seq::new(list.len(), |k: int| list[k].written())
}

/// A comment and the comment that its source text shows have one source
/// text, and the second is readable where the first is.
pub proof fn lemma_written_comment(c: CommentView)
    ensures
        comment_code(c.written()) == comment_code(c),
        c.written().written() == c.written(),
        c.is_readable() ==> c.written().is_readable(),
{
    lemma_trim_end(c.data);
    if c.ty == CommentType::Single && c.is_readable() {
        let d = trim_end(c.data);
        assert forall|j: int| 0 <= j < d.len() implies CharClass::LineText.holds(
            #[trigger] d[j],
        ) by {
            assert(d[j] == c.data[j]);
        }
    }
}

/// The comments of a list, as mathematical values.
pub open spec fn comment_views(list: Seq<Comment>) -> Seq<CommentView> {
    Seq::new(list.len(), |k: int| list[k]@)
}

/// The source text of a list of comments, each on a line of its own.
pub open spec fn comments_code(list: Seq<CommentView>) -> Seq<char>
    decreases list.len(),
{
    if list.len() == 0 {
        Seq::empty()
    } else {
        comments_code(list.drop_last()) + comment_code(list.last()) + "\n"@
    }
}

/// The source text of two lists of comments, one behind the other, is the
/// source text of the first and then that of the second.
pub proof fn lemma_comments_code_concat(first: Seq<CommentView>, second: Seq<CommentView>)
    ensures
        comments_code(first + second) == comments_code(first) + comments_code(second),
    decreases second.len(),
{
    if second.len() == 0 {
        assert(first + second =~= first);
        assert(comments_code(first) + comments_code(second) =~= comments_code(first));
    } else {
        let whole = first + second;
        lemma_comments_code_concat(first, second.drop_last());
        assert(whole.drop_last() =~= first + second.drop_last());
        assert(whole.last() == second.last());
        assert(comments_code(whole) =~= comments_code(first) + comments_code(second));
    }
}

impl Clone for Comment {
    fn clone(&self) -> (r: Self)
        ensures
            r@ == self@,
    {
        Comment { data: self.data.clone(), ty: self.ty }
    }
}

impl PartialEq for Comment {
    fn eq(&self, other: &Self) -> (r: bool) {
        self.data == other.data && self.ty == other.ty
    }
}

impl PartialEqSpecImpl for Comment {
    open spec fn obeys_eq_spec() -> bool {
        true
    }

    open spec fn eq_spec(&self, other: &Self) -> bool {
        self@ == other@
    }
}

impl Eq for Comment {

}

impl Statement for Comment {
    open spec fn rendering(&self) -> Seq<char> {
        comment_code(self@)
    }

    fn code(&self) -> (r: String) {
        match self.ty {
            CommentType::Single => {
                let chars = to_chars(self.data.as_str());
                let keep = run_start(&chars, 0, chars.len(), CharClass::Whitespace);
                proof {
                    assert(chars@.subrange(0, chars.len() as int) =~= chars@);
                }
                let body = slice_string(self.data.as_str(), 0, keep);
                let mut out = String::from_str("//");
                out.append(body.as_str());
                out
            },
            CommentType::Multi => {
                let mut out = String::from_str("/*");
                out.append(self.data.as_str());
                out.append("*/");
                out
            },
        }
    }
}

} // verus!
