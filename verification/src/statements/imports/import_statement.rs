use std::cmp::Ordering;
use vstd::prelude::*;
use vstd::std_specs::cmp::{PartialEqSpecImpl, PartialOrdSpecImpl};

use super::import_type::{category, ImportType};
use crate::statements::comment::{comment_code, lemma_written_comment, Comment, CommentView};
use crate::statements::Statement;
use crate::text::{lemma_lex_lt_total, lemma_lex_lt_transitive, lex_lt, stands_before, to_chars};

verus! {

/// An import statement as a mathematical value.
pub struct ImportView {
    /// The names that the statement binds, as they were written, if any.
    pub identifiers: Option<Seq<char>>,
    /// The module specifier, without its quotes.
    pub module: Seq<char>,
    /// The comment that follows the statement on its line, if any.
    pub comment: Option<CommentView>,
}

/// One `import` declaration.
#[derive(Debug)]
pub struct ImportStatement {
    pub identifiers: Option<String>,
    pub module: String,
    pub comment: Option<Comment>,
}

impl View for ImportStatement {
    type V = ImportView;

    open spec fn view(&self) -> ImportView {
        ImportView {
            identifiers: match self.identifiers {
                Some(id) => Some(id@),
                None => None,
            },
            module: self.module@,
            comment: match self.comment {
                Some(c) => Some(c@),
                None => None,
            },
        }
    }
}

impl ImportView {
    /// The statement as its source text shows it: with its comment as the
    /// source text of the comment shows it.
    pub open spec fn written(self) -> ImportView {
        ImportView {
            comment: match self.comment {
                Some(c) => Some(c.written()),
                None => None,
            },
            ..self
        }
    }
}

/// The statements of `list`, each as its source text shows it.
pub open spec fn written_imports(list: Seq<ImportView>) -> Seq<ImportView> {
    Seq::new(list.len(), |k: int| list[k].written())
}

/// A statement and the statement that its source text shows have one source
/// text and one place in the order.
pub proof fn lemma_written_import(i: ImportView)
    ensures
        import_code(i.written()) == import_code(i),
        i.written().written() == i.written(),
        i.written().module == i.module,
{
    if let Some(c) = i.comment {
        lemma_written_comment(c);
    }
}

/// The import statements of a list, as mathematical values.
pub open spec fn import_views(list: Seq<ImportStatement>) -> Seq<ImportView> {
    Seq::new(list.len(), |k: int| list[k]@)
}

/// The source text of an import statement: single quotes round the module,
/// a semicolon, and the comment after one space.
pub open spec fn import_code(i: ImportView) -> Seq<char> {
    let head = match i.identifiers {
        Some(id) => "import "@ + id + " from '"@,
        None => "import '"@,
    };
    let tail = match i.comment {
        Some(c) => " "@ + comment_code(c),
        None => Seq::<char>::empty(),
    };
    head + i.module + "';"@ + tail
}

/// Whether `a` is written out before `b`: by category first, then by module.
/// Neither the bound names nor the comment count.
pub open spec fn key_lt(a: ImportView, b: ImportView) -> bool {
    let rank_a = category(a.module).rank();
    let rank_b = category(b.module).rank();
    rank_a < rank_b || (rank_a == rank_b && lex_lt(a.module, b.module))
}

/// The order of the statements is a strict order that leaves no two
/// modules unordered: of two statements one stands before the other, or
/// they have one module; what stands before a second statement stands
/// before all that the second one stands before; and what does not stand
/// before a second statement stands before nothing that the second one does
/// not stand before.
pub proof fn lemma_key_lt_order(a: ImportView, b: ImportView, c: ImportView)
    ensures
        !(key_lt(a, b) && key_lt(b, a)),
        key_lt(a, b) || key_lt(b, a) || a.module == b.module,
        key_lt(a, b) && key_lt(b, c) ==> key_lt(a, c),
        !key_lt(a, b) && !key_lt(b, c) ==> !key_lt(a, c),
{
    lemma_lex_lt_total(a.module, b.module);
    lemma_lex_lt_total(b.module, c.module);
    lemma_lex_lt_total(a.module, c.module);
    if lex_lt(a.module, b.module) && lex_lt(b.module, c.module) {
        lemma_lex_lt_transitive(a.module, b.module, c.module);
    }
    if lex_lt(a.module, c.module) && lex_lt(c.module, b.module) {
        lemma_lex_lt_transitive(a.module, c.module, b.module);
    }
    if lex_lt(b.module, a.module) && lex_lt(a.module, c.module) {
        lemma_lex_lt_transitive(b.module, a.module, c.module);
    }
}

impl ImportStatement {
    /// The category of the statement, which its module decides.
    pub fn ty(&self) -> (r: ImportType)
        ensures
            r == category(self@.module),
    {
        ImportType::from(self.module.as_str())
    }

    /// Whether this statement is written out before `other`.
    pub fn precedes(&self, other: &Self) -> (r: bool)
        ensures
            r == key_lt(self@, other@),
    {
        let mine = self.ty().position();
        let theirs = other.ty().position();
        if mine != theirs {
            mine < theirs
        } else {
            let a = to_chars(self.module.as_str());
            let b = to_chars(other.module.as_str());
            stands_before(&a, &b)
        }
    }
}

impl PartialOrd for ImportStatement {
    fn partial_cmp(&self, other: &Self) -> (r: Option<Ordering>) {
        if self.precedes(other) {
            Some(Ordering::Less)
        } else if other.precedes(self) {
            Some(Ordering::Greater)
        } else {
            Some(Ordering::Equal)
        }
    }
}

impl PartialOrdSpecImpl for ImportStatement {
    open spec fn obeys_partial_cmp_spec() -> bool {
        true
    }

    open spec fn partial_cmp_spec(&self, other: &Self) -> Option<Ordering> {
        if key_lt(self@, other@) {
            Some(Ordering::Less)
        } else if key_lt(other@, self@) {
            Some(Ordering::Greater)
        } else {
            Some(Ordering::Equal)
        }
    }
}

impl Clone for ImportStatement {
    fn clone(&self) -> (r: Self)
        ensures
            r@ == self@,
    {
        ImportStatement {
            identifiers: match &self.identifiers {
                Some(id) => Some(id.clone()),
                None => None,
            },
            module: self.module.clone(),
            comment: match &self.comment {
                Some(c) => Some(c.clone()),
                None => None,
            },
        }
    }
}

impl PartialEq for ImportStatement {
    fn eq(&self, other: &Self) -> (r: bool) {
        let ids = match (&self.identifiers, &other.identifiers) {
            (Some(a), Some(b)) => *a == *b,
            (None, None) => true,
            _ => false,
        };
        let comments = match (&self.comment, &other.comment) {
            (Some(a), Some(b)) => *a == *b,
            (None, None) => true,
            _ => false,
        };
        ids && self.module == other.module && comments
    }
}

impl PartialEqSpecImpl for ImportStatement {
    open spec fn obeys_eq_spec() -> bool {
        true
    }

    open spec fn eq_spec(&self, other: &Self) -> bool {
        self@ == other@
    }
}

impl Eq for ImportStatement {

}

impl Statement for ImportStatement {
    open spec fn rendering(&self) -> Seq<char> {
        import_code(self@)
    }

    fn code(&self) -> (r: String) {
        let mut out = String::from_str("import ");
        match &self.identifiers {
            Some(id) => {
                out.append(id.as_str());
                out.append(" from '");
            },
            None => {
                out.append("'");
            },
        }
        out.append(self.module.as_str());
        out.append("';");
        match &self.comment {
            Some(c) => {
                out.append(" ");
                let text = c.code();
                out.append(text.as_str());
            },
            None => {},
        }
        proof {
            reveal_strlit("import ");
            reveal_strlit("import '");
            reveal_strlit("'");
            assert("import "@ + "'"@ =~= "import '"@);
            assert(out@ =~= import_code(self@));
        }
        out
    }
}

} // verus!
