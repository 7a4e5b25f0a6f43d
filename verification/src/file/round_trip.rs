//! What reading makes of a content that was written: the sorted statements
//! of the file, as their source texts show them. From this it follows that
//! a content that was fixed is left as it is when it is fixed again.

use vstd::prelude::*;

use super::filedata::FileDataView;
use super::sorting::{
    lemma_sorted_imports_keeps, lemma_sorted_imports_len, lemma_sorted_imports_ordered,
    lemma_sorted_imports_twice, lemma_sorted_imports_written, lemma_sorted_order,
    lemma_sorted_order_of_ordered, sorted_imports, sorted_order,
};
use super::{
    closing, comments_before, comments_in_order, fixed_content, import_lines, scan, scan_from,
    separator,
};
use crate::parser::comment::{
    lemma_comment_advances, lemma_comment_reads_back, lemma_comment_wellformed, match_comment,
};
use crate::parser::empty_line::{lemma_empty_line_advances, match_empty_line};
use crate::parser::import::{lemma_import_advances, match_import_statement};
use crate::parser::rereading::{
    is_plain_names, is_readable_import, is_wellformed_import, lemma_comment_is_no_import,
    lemma_import_reads_back, lemma_import_wellformed, lemma_line_feed,
};
use crate::statements::comment::{
    comment_code, comments_code, lemma_written_comment, written_comments, CommentType,
    CommentView,
};
use crate::statements::imports::import_statement::{
    import_code, lemma_written_import, written_imports, ImportView,
};
use crate::text::trim_end;

verus! {

/// Whether no matcher recognises the start of `rest`.
pub open spec fn is_stuck(rest: Seq<char>) -> bool {
    &&& match_import_statement(rest) is None
    &&& match_comment(rest) is None
    &&& match_empty_line(rest) is None
}

/// Whether the comment holds more than whitespace, if it is a single-line
/// comment.
pub open spec fn is_plain_comment(c: CommentView) -> bool {
    c.ty == CommentType::Single ==> trim_end(c.data).len() > 0
}

/// Whether the bound names of the statement, if it has some, are plain,
/// and its comment, if it has one, holds more than whitespace.
pub open spec fn is_plain_import(i: ImportView) -> bool {
    &&& i.identifiers matches Some(names) ==> is_plain_names(names)
    &&& i.comment matches Some(c) ==> is_plain_comment(c)
}

/// Whether every statement of `data` is plain.
pub open spec fn is_plain(data: FileDataView) -> bool {
    &&& forall|k: int| 0 <= k < data.imports.len() ==> is_plain_import(#[trigger] data.imports[k])
    &&& forall|i: int, k: int|
        0 <= k < data.comments_at(i).len() ==> is_plain_comment(#[trigger] data.comments_at(i)[k])
}

/// Whether `data` is as reading leaves it: every statement is one that a
/// matcher gives, and no matcher recognises the start of the rest.
pub open spec fn is_scanned(data: FileDataView) -> bool {
    &&& forall|k: int|
        0 <= k < data.imports.len() ==> is_wellformed_import(#[trigger] data.imports[k])
    &&& forall|i: int, k: int|
        0 <= k < data.comments_at(i).len() ==> (#[trigger] data.comments_at(i)[k]).is_wellformed()
    &&& is_stuck(data.rest)
}

/// `read` with the comments of `list` recorded one after the other.
pub open spec fn with_comments(read: FileDataView, list: Seq<CommentView>) -> FileDataView
    decreases list.len(),
{
    if list.len() == 0 {
        read
    } else {
        with_comments(read, list.drop_last()).with_comment(list.last())
    }
}

/// What reading makes of the lines of the first `count` imports of
/// `sorted`, with the comments of `before` written before them.
pub open spec fn reread_lines(
    before: Seq<Seq<CommentView>>,
    sorted: Seq<ImportView>,
    count: int,
) -> FileDataView
    decreases count,
{
    if count <= 0 {
        FileDataView::empty()
    } else {
        with_comments(
            reread_lines(before, sorted, count - 1),
            written_comments(before[count - 1]),
        ).with_import(sorted[count - 1].written())
    }
}

/// What reading makes of the fixed content of `data`: the sorted imports,
/// before each the comments that were written before it, each as its
/// source text shows it, and the rest.
pub open spec fn reread(data: FileDataView) -> FileDataView {
    let count = data.imports.len() as int;
    with_comments(
        reread_lines(comments_in_order(data), sorted_imports(data.imports), count),
        written_comments(data.comments_at(count)),
    ).with_rest(data.rest)
}

/// Recording a comment adds it at the number of the imports, and changes
/// nothing else.
pub proof fn lemma_with_comment(read: FileDataView, c: CommentView)
    ensures
        read.with_comment(c).imports == read.imports,
        read.with_comment(c).rest == read.rest,
        forall|j: int|
            #[trigger] read.with_comment(c).comments_at(j) == if j == read.imports.len() {
                read.comments_at(j).push(c)
            } else {
                read.comments_at(j)
            },
{
}

/// Recording comments adds them at the number of the imports, and changes
/// nothing else.
pub proof fn lemma_with_comments(read: FileDataView, list: Seq<CommentView>)
    ensures
        with_comments(read, list).imports == read.imports,
        with_comments(read, list).rest == read.rest,
        forall|j: int|
            #[trigger] with_comments(read, list).comments_at(j) == if j == read.imports.len() {
                read.comments_at(j) + list
            } else {
                read.comments_at(j)
            },
    decreases list.len(),
{
    if list.len() == 0 {
        assert forall|j: int| #[trigger]
            with_comments(read, list).comments_at(j) == if j == read.imports.len() {
                read.comments_at(j) + list
            } else {
                read.comments_at(j)
            } by {
            assert(read.comments_at(j) + list =~= read.comments_at(j));
        }
    } else {
        let shorter = list.drop_last();
        let before = with_comments(read, shorter);
        lemma_with_comments(read, shorter);
        lemma_with_comment(before, list.last());
        assert forall|j: int| #[trigger]
            with_comments(read, list).comments_at(j) == if j == read.imports.len() {
                read.comments_at(j) + list
            } else {
                read.comments_at(j)
            } by {
            assert(before.with_comment(list.last()).comments_at(j) == if j
                == before.imports.len() {
                before.comments_at(j).push(list.last())
            } else {
                before.comments_at(j)
            });
            if j == read.imports.len() {
                assert((read.comments_at(j) + shorter).push(list.last()) =~= read.comments_at(j)
                    + list);
            }
        }
    }
}

/// A blank line is read and dropped.
pub proof fn lemma_scan_blank(y: Seq<char>, read: FileDataView)
    ensures
        scan_from("\n"@ + y, read) == scan_from(y, read),
{
    reveal_strlit("\n");
    let s = "\n"@ + y;
    lemma_line_feed(s);
    assert(s.skip(1) =~= y);
}

/// A readable comment on a line of its own is read as its source text shows
/// it.
pub proof fn lemma_scan_comment(c: CommentView, y: Seq<char>, read: FileDataView)
    requires
        c.is_readable(),
    ensures
        scan_from(comment_code(c) + "\n"@ + y, read) == scan_from(y, read.with_comment(c.written())),
{
    reveal_strlit("\n");
    let x = "\n"@ + y;
    let s = comment_code(c) + "\n"@ + y;
    assert(s =~= comment_code(c) + x);
    lemma_comment_is_no_import(c, x);
    lemma_comment_reads_back(c, x);
    lemma_scan_blank(y, read.with_comment(c.written()));
}

/// Readable comments, each on a line of its own, are read as their source
/// texts show them.
pub proof fn lemma_scan_comments(list: Seq<CommentView>, y: Seq<char>, read: FileDataView)
    requires
        forall|k: int| 0 <= k < list.len() ==> (#[trigger] list[k]).is_readable(),
    ensures
        scan_from(comments_code(list) + y, read) == scan_from(
            y,
            with_comments(read, written_comments(list)),
        ),
    decreases list.len(),
{
    if list.len() == 0 {
        assert(comments_code(list) + y =~= y);
    } else {
        let shorter = list.drop_last();
        let last = list.last();
        let line = comment_code(last) + "\n"@ + y;
        assert(comments_code(list) + y =~= comments_code(shorter) + line);
        assert forall|k: int| 0 <= k < shorter.len() implies (#[trigger] shorter[k]).is_readable() by {
            assert(shorter[k] == list[k]);
        }
        lemma_scan_comments(shorter, line, read);
        lemma_scan_comment(last, y, with_comments(read, written_comments(shorter)));
        assert(written_comments(list).drop_last() =~= written_comments(shorter));
        assert(written_comments(list).last() == last.written());
    }
}

/// A readable import statement on a line of its own is read as its source
/// text shows it.
pub proof fn lemma_scan_import(i: ImportView, y: Seq<char>, read: FileDataView)
    requires
        is_readable_import(i),
    ensures
        scan_from(import_code(i) + "\n"@ + y, read) == scan_from(y, read.with_import(i.written())),
{
    reveal_strlit("\n");
    let x = "\n"@ + y;
    let s = import_code(i) + "\n"@ + y;
    assert(s =~= import_code(i) + x);
    lemma_import_reads_back(i, x);
    lemma_scan_blank(y, read.with_import(i.written()));
}

/// The lines of readable statements are read as their source texts show
/// them.
pub proof fn lemma_scan_lines(
    before: Seq<Seq<CommentView>>,
    sorted: Seq<ImportView>,
    count: int,
    y: Seq<char>,
)
    requires
        0 <= count <= sorted.len(),
        count <= before.len(),
        forall|k: int| 0 <= k < sorted.len() ==> is_readable_import(#[trigger] sorted[k]),
        forall|i: int, k: int|
            0 <= i < before.len() && 0 <= k < before[i].len() ==> (
            #[trigger] before[i][k]).is_readable(),
    ensures
        scan_from(import_lines(before, sorted, count) + y, FileDataView::empty()) == scan_from(
            y,
            reread_lines(before, sorted, count),
        ),
    decreases count,
{
    if count == 0 {
        assert(import_lines(before, sorted, count) + y =~= y);
    } else {
        let k = count - 1;
        let comments = before[k];
        let import_on = import_code(sorted[k]) + "\n"@ + y;
        let comments_on = comments_code(comments) + import_on;
        let line_on = separator(sorted, k) + comments_on;
        assert(import_lines(before, sorted, count) + y =~= import_lines(before, sorted, k)
            + line_on);
        lemma_scan_lines(before, sorted, k, line_on);
        let read = reread_lines(before, sorted, k);
        if separator(sorted, k).len() > 0 {
            lemma_scan_blank(comments_on, read);
        } else {
            assert(line_on =~= comments_on);
        }
        assert forall|j: int| 0 <= j < comments.len() implies (#[trigger] comments[j]).is_readable() by {
            assert(before[k][j].is_readable());
        }
        lemma_scan_comments(comments, import_on, read);
        lemma_scan_import(sorted[k], y, with_comments(read, written_comments(comments)));
    }
}

/// What reading makes of the lines of the first `count` imports: those
/// imports and the comments before them, each as its source text shows it.
pub proof fn lemma_reread_lines(before: Seq<Seq<CommentView>>, sorted: Seq<ImportView>, count: int)
    requires
        0 <= count <= sorted.len(),
    ensures
        reread_lines(before, sorted, count).imports == written_imports(sorted.take(count)),
        reread_lines(before, sorted, count).rest == Seq::<char>::empty(),
        forall|j: int|
            #[trigger] reread_lines(before, sorted, count).comments_at(j) == if 0 <= j < count {
                written_comments(before[j])
            } else {
                Seq::empty()
            },
    decreases count,
{
    if count == 0 {
        assert(FileDataView::empty().imports =~= written_imports(sorted.take(0)));
    } else {
        let k = count - 1;
        let earlier = reread_lines(before, sorted, k);
        let list = written_comments(before[k]);
        lemma_reread_lines(before, sorted, k);
        lemma_with_comments(earlier, list);
        let noted = with_comments(earlier, list);
        assert(noted.with_import(sorted[k].written()).imports =~= written_imports(
            sorted.take(count),
        ));
        assert forall|j: int| #[trigger]
            reread_lines(before, sorted, count).comments_at(j) == if 0 <= j < count {
                written_comments(before[j])
            } else {
                Seq::empty()
            } by {
            assert(noted.with_import(sorted[k].written()).comments_at(j) == noted.comments_at(j));
            assert(noted.comments_at(j) == if j == earlier.imports.len() {
                earlier.comments_at(j) + list
            } else {
                earlier.comments_at(j)
            });
            if j == k {
                assert(earlier.comments_at(j) + list =~= list);
            }
        }
    }
}

/// What reading makes of a fixed content: the sorted imports, before each
/// the comments that were written before it, behind the last the comments
/// recorded there, each as its source text shows it, and the rest.
pub proof fn lemma_reread(data: FileDataView)
    ensures
        reread(data).imports == written_imports(sorted_imports(data.imports)),
        reread(data).rest == data.rest,
        forall|j: int|
            #[trigger] reread(data).comments_at(j) == if 0 <= j < data.imports.len() {
                written_comments(comments_in_order(data)[j])
            } else if j == data.imports.len() {
                written_comments(data.comments_at(j))
            } else {
                Seq::empty()
            },
{
    let count = data.imports.len() as int;
    let sorted = sorted_imports(data.imports);
    let before = comments_in_order(data);
    lemma_sorted_imports_len(data.imports);
    lemma_reread_lines(before, sorted, count);
    let lines = reread_lines(before, sorted, count);
    let list = written_comments(data.comments_at(count));
    lemma_with_comments(lines, list);
    assert(sorted.take(count) =~= sorted);
    let noted = with_comments(lines, list);
    assert forall|j: int| #[trigger]
        reread(data).comments_at(j) == if 0 <= j < data.imports.len() {
            written_comments(comments_in_order(data)[j])
        } else if j == data.imports.len() {
            written_comments(data.comments_at(j))
        } else {
            Seq::empty()
        } by {
        assert(noted.with_rest(data.rest).comments_at(j) == noted.comments_at(j));
        assert(noted.comments_at(j) == if j == lines.imports.len() {
            lines.comments_at(j) + list
        } else {
            lines.comments_at(j)
        });
        if j == count {
            assert(lines.comments_at(j) + list =~= list);
        }
    }
}

/// The comments of a list and the comments that their source texts show
/// have one source text.
pub proof fn lemma_written_comments_code(list: Seq<CommentView>)
    ensures
        comments_code(written_comments(list)) == comments_code(list),
    decreases list.len(),
{
    if list.len() > 0 {
        lemma_written_comments_code(list.drop_last());
        lemma_written_comment(list.last());
        assert(written_comments(list).drop_last() =~= written_comments(list.drop_last()));
        assert(written_comments(list).last() == list.last().written());
    }
}

/// Statements and comments, and the statements and comments that their
/// source texts show, have the same lines.
pub proof fn lemma_written_import_lines(
    before: Seq<Seq<CommentView>>,
    shown: Seq<Seq<CommentView>>,
    sorted: Seq<ImportView>,
    count: int,
)
    requires
        0 <= count <= sorted.len(),
        count <= before.len(),
        count <= shown.len(),
        forall|k: int| 0 <= k < count ==> #[trigger] shown[k] == written_comments(before[k]),
    ensures
        import_lines(shown, written_imports(sorted), count) == import_lines(before, sorted, count),
    decreases count,
{
    if count > 0 {
        let k = count - 1;
        lemma_written_import_lines(before, shown, sorted, k);
        lemma_written_comments_code(before[k]);
        lemma_written_import(sorted[k]);
        if k > 0 {
            lemma_written_import(sorted[k - 1]);
        }
        assert(shown[k] == written_comments(before[k]));
    }
}

/// Fixing what reading makes of a fixed content gives that content.
pub proof fn lemma_reread_fixed(data: FileDataView)
    ensures
        fixed_content(reread(data)) == fixed_content(data),
{
    let count = data.imports.len() as int;
    let sorted = sorted_imports(data.imports);
    let before = comments_in_order(data);
    let again = reread(data);
    lemma_reread(data);
    lemma_sorted_imports_len(data.imports);
    lemma_sorted_imports_written(sorted);
    lemma_sorted_imports_twice(data.imports);
    assert(sorted_imports(again.imports) == written_imports(sorted));
    assert(again.imports.len() == count);
    lemma_sorted_imports_ordered(again.imports);
    lemma_sorted_order_of_ordered(again.imports, count);
    let shown = comments_in_order(again);
    assert forall|k: int| 0 <= k < count implies #[trigger] shown[k] == written_comments(
        before[k],
    ) by {
        assert(sorted_order(again.imports)[k] == k);
        assert(shown[k] == comments_before(again, sorted_order(again.imports), k));
        assert(again.comments_at(k) == written_comments(before[k]));
        if k == 0 {
            assert(again.comments_at(0) + Seq::<CommentView>::empty() =~= again.comments_at(0));
        }
    }
    lemma_written_import_lines(before, shown, sorted, count);
    lemma_written_comments_code(data.comments_at(count));
    assert(again.comments_at(count) == written_comments(data.comments_at(count)));
}

/// Reading stops at a text that no matcher recognises.
pub proof fn lemma_scan_stuck(rest: Seq<char>, read: FileDataView)
    requires
        is_stuck(rest),
    ensures
        scan_from(rest, read) == read.with_rest(rest),
{
}

/// What stands between the last import and the rest is read as its source
/// text shows it, and the rest is left.
pub proof fn lemma_scan_closing(data: FileDataView, read: FileDataView)
    requires
        is_stuck(data.rest),
        forall|i: int, k: int|
            0 <= k < data.comments_at(i).len() ==> (#[trigger] data.comments_at(i)[k]).is_readable(),
    ensures
        scan_from(closing(data) + data.rest, read) == with_comments(
            read,
            written_comments(data.comments_at(data.imports.len() as int)),
        ).with_rest(data.rest),
{
    let count = data.imports.len() as int;
    let comments = data.comments_at(count);
    let noted = with_comments(read, written_comments(comments));
    assert forall|j: int| 0 <= j < comments.len() implies (#[trigger] comments[j]).is_readable() by {
        assert(data.comments_at(count)[j].is_readable());
    }
    lemma_scan_comments(comments, data.rest, read);
    lemma_scan_stuck(data.rest, noted);
    if comments.len() > 0 {
        if count > 0 {
            assert(closing(data) + data.rest =~= "\n"@ + (comments_code(comments) + data.rest));
            lemma_scan_blank(comments_code(comments) + data.rest, read);
        }
    } else {
        assert(comments_code(comments) + data.rest =~= data.rest);
        if count > 0 && data.rest.len() > 0 {
            lemma_scan_blank(data.rest, read);
        } else {
            assert(closing(data) + data.rest =~= data.rest);
        }
    }
}

/// Whether every statement of `data` reads as itself from its source text,
/// and no matcher recognises the start of the rest.
pub open spec fn is_readable(data: FileDataView) -> bool {
    is_scanned(data) && is_plain(data)
}

/// Reading the fixed content of readable data gives the sorted imports,
/// before each the comments that were written before it, each as its
/// source text shows it, and the rest.
pub proof fn lemma_scan_fixed(data: FileDataView)
    requires
        is_readable(data),
    ensures
        scan(fixed_content(data)) == reread(data),
{
    let count = data.imports.len() as int;
    let sorted = sorted_imports(data.imports);
    lemma_sorted_imports_len(data.imports);
    assert forall|k: int| 0 <= k < data.imports.len() implies is_readable_import(
        #[trigger] data.imports[k],
    ) by {
        assert(is_wellformed_import(data.imports[k]) && is_plain_import(data.imports[k]));
    }
    lemma_sorted_imports_keeps(data.imports, |i: ImportView| is_readable_import(i));
    assert forall|i: int, k: int| 0 <= k < data.comments_at(i).len() implies (
    #[trigger] data.comments_at(i)[k]).is_readable() by {
        assert(data.comments_at(i)[k].is_wellformed() && is_plain_comment(data.comments_at(i)[k]));
    }
    let before = comments_in_order(data);
    lemma_sorted_order(data.imports);
    assert forall|i: int, k: int| 0 <= i < before.len() && 0 <= k < before[i].len() implies (
    #[trigger] before[i][k]).is_readable() by {
        let at = sorted_order(data.imports)[i];
        let own = if at > 0 {
            data.comments_at(at)
        } else {
            Seq::empty()
        };
        assert(before[i] == comments_before(data, sorted_order(data.imports), i));
        if i == 0 && k < data.comments_at(0).len() {
            assert(before[i][k] == data.comments_at(0)[k]);
        } else if i == 0 {
            assert(before[i][k] == own[k - data.comments_at(0).len()]);
            assert(data.comments_at(at)[k - data.comments_at(0).len()].is_readable());
        } else {
            assert(before[i][k] == data.comments_at(at)[k]);
        }
    }
    let ending = closing(data) + data.rest;
    assert(fixed_content(data) =~= import_lines(before, sorted, count) + ending);
    lemma_scan_lines(before, sorted, count, ending);
    lemma_scan_closing(data, reread_lines(before, sorted, count));
}

/// Reading leaves data as reading leaves it.
pub proof fn lemma_scan_from_scanned(s: Seq<char>, read: FileDataView)
    requires
        forall|k: int|
            0 <= k < read.imports.len() ==> is_wellformed_import(#[trigger] read.imports[k]),
        forall|i: int, k: int|
            0 <= k < read.comments_at(i).len() ==> (#[trigger] read.comments_at(i)[k]).is_wellformed(),
    ensures
        is_scanned(scan_from(s, read)),
    decreases s.len(),
{
    lemma_import_advances(s);
    lemma_comment_advances(s);
    lemma_empty_line_advances(s);
    lemma_import_wellformed(s);
    lemma_comment_wellformed(s);
    match match_import_statement(s) {
        Some(m) => {
            let next = read.with_import(m.value);
            assert forall|k: int| 0 <= k < next.imports.len() implies is_wellformed_import(
                #[trigger] next.imports[k],
            ) by {
                if k < read.imports.len() {
                    assert(next.imports[k] == read.imports[k]);
                }
            }
            assert forall|i: int, k: int| 0 <= k < next.comments_at(i).len() implies (
            #[trigger] next.comments_at(i)[k]).is_wellformed() by {
                assert(next.comments_at(i) == read.comments_at(i));
                assert(read.comments_at(i)[k].is_wellformed());
            }
            lemma_scan_from_scanned(m.rest, next);
        },
        None => match match_comment(s) {
            Some(m) => {
                let next = read.with_comment(m.value);
                lemma_with_comment(read, m.value);
                assert forall|i: int, k: int| 0 <= k < next.comments_at(i).len() implies (
                #[trigger] next.comments_at(i)[k]).is_wellformed() by {
                    if k < read.comments_at(i).len() {
                        assert(next.comments_at(i)[k] == read.comments_at(i)[k]);
                        assert(read.comments_at(i)[k].is_wellformed());
                    }
                }
                lemma_scan_from_scanned(m.rest, next);
            },
            None => match match_empty_line(s) {
                Some(m) => {
                    lemma_scan_from_scanned(m.rest, read);
                },
                None => {
                    let next = read.with_rest(s);
                    assert forall|i: int, k: int| 0 <= k < next.comments_at(i).len() implies (
                    #[trigger] next.comments_at(i)[k]).is_wellformed() by {
                        assert(next.comments_at(i) == read.comments_at(i));
                        assert(read.comments_at(i)[k].is_wellformed());
                    }
                },
            },
        },
    }
}

/// What reading a text gives is as reading leaves it.
pub proof fn lemma_scan_scanned(text: Seq<char>)
    ensures
        is_scanned(scan(text)),
{
    let nothing = FileDataView::empty();
    assert forall|i: int, k: int| 0 <= k < nothing.comments_at(i).len() implies (
    #[trigger] nothing.comments_at(i)[k]).is_wellformed() by {}
    lemma_scan_from_scanned(text, nothing);
}

/// What reading leaves as the rest is the end of the text.
pub proof fn lemma_scan_from_rest(s: Seq<char>, read: FileDataView)
    ensures
        scan_from(s, read).rest.is_suffix_of(s),
    decreases s.len(),
{
    lemma_import_advances(s);
    lemma_comment_advances(s);
    lemma_empty_line_advances(s);
    let rest = scan_from(s, read).rest;
    match match_import_statement(s) {
        Some(m) => {
            lemma_scan_from_rest(m.rest, read.with_import(m.value));
            assert(rest =~= s.subrange(s.len() - rest.len(), s.len() as int));
        },
        None => match match_comment(s) {
            Some(m) => {
                lemma_scan_from_rest(m.rest, read.with_comment(m.value));
                assert(rest =~= s.subrange(s.len() - rest.len(), s.len() as int));
            },
            None => match match_empty_line(s) {
                Some(m) => {
                    lemma_scan_from_rest(m.rest, read);
                    assert(rest =~= s.subrange(s.len() - rest.len(), s.len() as int));
                },
                None => {
                    assert(rest =~= s.subrange(0, s.len() as int));
                },
            },
        },
    }
}

/// Fixing changes nothing behind the head of a file: the text that reading
/// leaves as the rest is the end of the file, and the end of its fixed
/// content.
pub proof fn lemma_fix_keeps_rest(text: Seq<char>)
    ensures
        scan(text).rest.is_suffix_of(text),
        scan(text).rest.is_suffix_of(fixed_content(scan(text))),
{
    let data = scan(text);
    lemma_scan_from_rest(text, FileDataView::empty());
    let fixed = fixed_content(data);
    assert(data.rest =~= fixed.subrange(fixed.len() - data.rest.len(), fixed.len() as int));
}

/// Fixing a file twice gives what fixing it once gives, where every
/// statement of the file is plain.
pub proof fn lemma_fix_twice(text: Seq<char>)
    requires
        is_plain(scan(text)),
    ensures
        fixed_content(scan(fixed_content(scan(text)))) == fixed_content(scan(text)),
{
    let data = scan(text);
    lemma_scan_scanned(text);
    lemma_scan_fixed(data);
    lemma_reread_fixed(data);
}

/// Reading the fixed content of a file that is not dangerous gives the
/// sorted imports of the file, each as its source text shows it, and the
/// rest of the file, where every statement of the file is plain. Those
/// imports are in order: sorting leaves them as they are.
pub proof fn lemma_fix_then_scan(text: Seq<char>)
    requires
        !scan(text).is_dangerous(),
        is_plain(scan(text)),
    ensures
        scan(fixed_content(scan(text))).imports == written_imports(
            sorted_imports(scan(text).imports),
        ),
        sorted_imports(scan(fixed_content(scan(text))).imports) == written_imports(
            sorted_imports(scan(text).imports),
        ),
        scan(fixed_content(scan(text))).rest == scan(text).rest,
        !scan(fixed_content(scan(text))).is_dangerous(),
{
    let data = scan(text);
    let again = scan(fixed_content(data));
    lemma_scan_scanned(text);
    lemma_scan_fixed(data);
    lemma_reread(data);
    lemma_sorted_imports_written(sorted_imports(data.imports));
    lemma_sorted_imports_twice(data.imports);
    lemma_sorted_imports_len(data.imports);
    lemma_sorted_order(data.imports);
    assert forall|k: int| 0 < k < again.imports.len() implies (#[trigger] again.comments_at(
        k,
    )).len() == 0 by {
        let at = sorted_order(data.imports)[k];
        assert(again.comments_at(k) == written_comments(comments_in_order(data)[k]));
        assert(comments_in_order(data)[k] == comments_before(data, sorted_order(data.imports), k));
        if at > 0 {
            assert(data.comments_at(at).len() == 0);
        }
    }
}

} // verus!
