//! A file, the reading of its head, and the writing of its sorted content.

pub mod filedata;
pub mod round_trip;

pub mod sorting;

pub use filedata::{FileData, FileDataView};

use vstd::prelude::*;

use crate::parser::comment::{comment_at, lemma_comment_advances, match_comment};
use crate::parser::empty_line::{empty_line_at, lemma_empty_line_advances, match_empty_line};
use crate::parser::import::{import_statement_at, lemma_import_advances, match_import_statement};
use crate::statements::comment::{
    comment_views, comments_code, lemma_comments_code_concat, Comment, CommentView,
};
use crate::statements::imports::import_statement::{import_code, import_views, ImportView};
use crate::statements::imports::import_type::category;
use crate::statements::Statement;
use crate::text::{slice_string, to_chars};
use sorting::{lemma_sorted_order, order_view, sort_imports, sorted_imports, sorted_order};

verus! {

/// What reading `s` adds to `read`: as long as an import statement, else a
/// comment, else a blank line stands at the start of the text, it is taken
/// off; imports and comments are recorded, blank lines are dropped. The text
/// at which none of them stands is kept as it is.
pub open spec fn scan_from(s: Seq<char>, read: FileDataView) -> FileDataView
    decreases s.len(),
    via scan_from_decreases
{
    match match_import_statement(s) {
        Some(m) => scan_from(m.rest, read.with_import(m.value)),
        None => match match_comment(s) {
            Some(m) => scan_from(m.rest, read.with_comment(m.value)),
            None => match match_empty_line(s) {
                Some(m) => scan_from(m.rest, read),
                None => read.with_rest(s),
            },
        },
    }
}

#[via_fn]
proof fn scan_from_decreases(s: Seq<char>, read: FileDataView) {
    lemma_import_advances(s);
    lemma_comment_advances(s);
    lemma_empty_line_advances(s);
}

/// What the head of the text `s` holds.
pub open spec fn scan(s: Seq<char>) -> FileDataView {
    scan_from(s, FileDataView::empty())
}

/// The blank line that parts the import at `index` from the one before it,
/// where their categories differ.
pub open spec fn separator(sorted: Seq<ImportView>, index: int) -> Seq<char> {
    if index > 0 && category(sorted[index - 1].module) != category(sorted[index].module) {
        "\n"@
    } else {
        Seq::empty()
    }
}

/// The comments that are written before the import at `place` of `order`:
/// the comments recorded before that import in the source, which go with
/// it wherever sorting puts it. The comments recorded before the first
/// import of the source do not go with that import: they stay in front of
/// all imports, and so are written before the import at the first place,
/// ahead of its own comments.
pub open spec fn comments_before(data: FileDataView, order: Seq<int>, place: int) -> Seq<
    CommentView,
> {
    let own = if order[place] > 0 {
        data.comments_at(order[place])
    } else {
        Seq::empty()
    };
    if place == 0 {
        data.comments_at(0) + own
    } else {
        own
    }
}

/// The comments that are written before each import, in the order in which
/// the imports are written out.
pub open spec fn comments_in_order(data: FileDataView) -> Seq<Seq<CommentView>> {
    Seq::new(
        data.imports.len(),
        |place: int| comments_before(data, sorted_order(data.imports), place),
    )
}

/// The lines of the first `count` imports of `sorted`: before each import
/// the blank line that parts the categories, then the comments of `before`
/// that belong to its place, then the import on a line of its own.
pub open spec fn import_lines(
    before: Seq<Seq<CommentView>>,
    sorted: Seq<ImportView>,
    count: int,
) -> Seq<char>
    decreases count,
{
    if count <= 0 {
        Seq::empty()
    } else {
        import_lines(before, sorted, count - 1) + separator(sorted, count - 1) + comments_code(
            before[count - 1],
        ) + import_code(sorted[count - 1]) + "\n"@
    }
}

/// What stands between the last import and the rest of the file: the
/// comments recorded behind the last import, after a blank line if there is
/// an import; without such comments, a blank line if there is an import and
/// the rest is not empty.
pub open spec fn closing(data: FileDataView) -> Seq<char> {
    let count = data.imports.len() as int;
    if data.comments_at(count).len() > 0 {
        if count > 0 {
            "\n"@ + comments_code(data.comments_at(count))
        } else {
            comments_code(data.comments_at(count))
        }
    } else if count > 0 && data.rest.len() > 0 {
        "\n"@
    } else {
        Seq::empty()
    }
}

/// The content of the file with its imports sorted: the lines of the
/// sorted imports, each with the comments that belong before it, then what
/// stands behind the last import, then the rest.
pub open spec fn fixed_content(data: FileDataView) -> Seq<char> {
    import_lines(
        comments_in_order(data),
        sorted_imports(data.imports),
        data.imports.len() as int,
    ) + closing(data) + data.rest
}

/// Whether the imports stand in the order in which they are written out.
pub open spec fn is_sorted(data: FileDataView) -> bool {
    sorted_imports(data.imports) == data.imports
}

/// A file that can be read, checked and written anew.
#[derive(Debug)]
pub struct File {
    path: String,
}

impl View for File {
    type V = Seq<char>;

    closed spec fn view(&self) -> Seq<char> {
        self.path@
    }
}

impl Clone for File {
    fn clone(&self) -> (r: Self)
        ensures
            r@ == self@,
    {
        File { path: self.path.clone() }
    }
}

/// Writes the comments of `list` behind `text`, each on a line of its own.
fn append_comments(text: &mut String, list: &Vec<Comment>)
    ensures
        final(text)@ == old(text)@ + comments_code(comment_views(list@)),
{
    let ghost all = comment_views(list@);
    let mut k: usize = 0;
    proof {
        assert(comments_code(all.take(0)) =~= Seq::<char>::empty());
        assert(text@ =~= old(text)@ + comments_code(all.take(0)));
    }
    while k < list.len()
        invariant
            k <= list.len(),
            all == comment_views(list@),
            text@ == old(text)@ + comments_code(all.take(k as int)),
        decreases list.len() - k,
    {
        let code = list[k].code();
        let ghost before = text@;
        text.append(code.as_str());
        text.append("\n");
        proof {
            let next = all.take(k + 1);
            assert(next.drop_last() =~= all.take(k as int));
            assert(next.last() == list@[k as int]@);
            assert(text@ =~= old(text)@ + comments_code(next));
        }
        k += 1;
    }
    proof {
        assert(all.take(k as int) =~= all);
    }
}

impl File {
    /// A file, from its path.
    pub fn new(path: String) -> (r: Self)
        ensures
            r@ == path@,
    {
        File { path }
    }

    /// The path of the file.
    pub fn path(&self) -> (p: &String)
        ensures
            p@ == self@,
    {
        &self.path
    }

    /// Reads the head of the file, whose content is `program`.
    pub fn parse(&self, program: &str) -> (data: FileData)
        ensures
            data@ == scan(program@),
    {
        let chars = to_chars(program);
        let mut data = FileData::new();
        let mut pos: usize = 0;
        proof {
            assert(chars@.skip(0) =~= program@);
        }
        loop
            invariant
                chars@ == program@,
                pos <= chars.len(),
                scan_from(chars@.skip(pos as int), data@) == scan(program@),
            decreases chars.len() - pos,
        {
            match import_statement_at(program, &chars, pos) {
                Some((end, import)) => {
                    data.push_import(import);
                    pos = end;
                    continue ;
                },
                None => {},
            }
            match comment_at(program, &chars, pos) {
                Some((end, comment)) => {
                    data.push_comment(comment);
                    pos = end;
                    continue ;
                },
                None => {},
            }
            match empty_line_at(&chars, pos) {
                Some(end) => {
                    pos = end;
                },
                None => {
                    let ghost read = data@;
                    data.rest = slice_string(program, pos, chars.len());
                    proof {
                        assert(data@.interleaved =~= read.interleaved);
                        assert(data@ == read.with_rest(chars@.skip(pos as int)));
                    }
                    return data;
                },
            }
        }
    }

    /// Whether the imports of the file are in the order in which `fix` writes
    /// them.
    #[must_use]
    pub fn check(&self, data: &FileData) -> (r: bool)
        ensures
            r == is_sorted(data@),
    {
        let order = sort_imports(&data.imports);
        let ghost found = import_views(data.imports@);
        let ghost expected = sorted_imports(found);
        proof {
            lemma_sorted_order(found);
        }
        let mut k: usize = 0;
        while k < order.len()
            invariant
                k <= order.len(),
                order.len() == data.imports.len(),
                found == import_views(data.imports@),
                expected == sorted_imports(found),
                expected.len() == found.len(),
                order_view(order@) == sorted_order(found),
                forall|j: int| 0 <= j < order.len() ==> (#[trigger] order@[j]) < data.imports.len(),
                forall|j: int|
                    0 <= j < found.len() ==> #[trigger] expected[j] == found[sorted_order(found)[j]],
                forall|j: int| 0 <= j < k ==> expected[j] == found[j],
            decreases order.len() - k,
        {
            proof {
                assert(order_view(order@)[k as int] == order@[k as int]);
                assert(expected[k as int] == found[order@[k as int] as int]);
            }
            if !(data.imports[order[k]] == data.imports[k]) {
                proof {
                    assert(expected[k as int] != found[k as int]);
                }
                return false;
            }
            k += 1;
        }
        proof {
            assert(expected =~= found);
        }
        true
    }

    /// The content of the file with its imports sorted. A comment is written
    /// before the import that it stood before in the source; the comments
    /// before the first import of the source stay in front of all imports.
    /// The danger of the file is not looked at.
    pub fn fix(&self, data: &FileData) -> (content: String)
        ensures
            content@ == fixed_content(data@),
    {
        let order = sort_imports(&data.imports);
        let ghost found = import_views(data.imports@);
        let ghost sorted = sorted_imports(found);
        let ghost before = comments_in_order(data@);
        proof {
            lemma_sorted_order(found);
        }
        let mut text = String::new();
        let mut k: usize = 0;
        proof {
            assert(text@ =~= import_lines(before, sorted, 0));
        }
        while k < order.len()
            invariant
                k <= order.len(),
                order.len() == data.imports.len(),
                found == import_views(data.imports@),
                sorted == sorted_imports(found),
                before == comments_in_order(data@),
                order_view(order@) == sorted_order(found),
                forall|j: int| 0 <= j < order.len() ==> (#[trigger] order@[j]) < data.imports.len(),
                forall|j: int|
                    0 <= j < found.len() ==> #[trigger] sorted[j] == found[sorted_order(found)[j]],
                text@ == import_lines(before, sorted, k as int),
            decreases order.len() - k,
        {
            let at = order[k];
            let import = &data.imports[at];
            proof {
                assert(order_view(order@)[k as int] == at);
                assert(sorted[k as int] == import@);
                if k > 0 {
                    assert(order_view(order@)[k - 1] == order@[k - 1]);
                    assert(sorted[k - 1] == found[order@[k - 1] as int]);
                }
            }
            let ghost lines = text@;
            if k > 0 && data.imports[order[k - 1]].ty() != import.ty() {
                text.append("\n");
            }
            let ghost parted = text@;
            proof {
                assert(parted =~= lines + separator(sorted, k as int));
            }
            if k == 0 {
                match data.comments(0) {
                    Some(list) => {
                        append_comments(&mut text, list);
                    },
                    None => {
                        proof {
                            assert(data@.comments_at(0) =~= Seq::empty());
                            assert(text@ =~= parted + comments_code(data@.comments_at(0)));
                        }
                    },
                }
            }
            let ghost fronted = text@;
            if at > 0 {
                match data.comments(at) {
                    Some(list) => {
                        append_comments(&mut text, list);
                    },
                    None => {
                        proof {
                            assert(data@.comments_at(at as int) =~= Seq::empty());
                            assert(text@ =~= fronted + comments_code(data@.comments_at(at as int)));
                        }
                    },
                }
            }
            proof {
                let own = if at > 0 {
                    data@.comments_at(at as int)
                } else {
                    Seq::empty()
                };
                assert(before[k as int] == comments_before(data@, sorted_order(found), k as int));
                if k == 0 {
                    lemma_comments_code_concat(data@.comments_at(0), own);
                    assert(text@ =~= parted + comments_code(before[k as int]));
                } else {
                    assert(text@ =~= parted + comments_code(before[k as int]));
                }
            }
            let code = import.code();
            text.append(code.as_str());
            text.append("\n");
            proof {
                assert(text@ =~= import_lines(before, sorted, k + 1));
            }
            k += 1;
        }
        let ghost lines = text@;
        match data.comments(order.len()) {
            Some(list) => {
                if order.len() > 0 {
                    text.append("\n");
                }
                append_comments(&mut text, list);
            },
            None => {
                if order.len() > 0 && !data.rest.as_str().is_empty() {
                    text.append("\n");
                }
            },
        }
        proof {
            assert(text@ =~= lines + closing(data@));
        }
        text.append(data.rest.as_str());
        text
    }
}

} // verus!
