use vstd::prelude::*;

use super::{follows, lemma_skip_blanks, skip_blanks, Matched, NoMatch};
use crate::statements::{Comment, CommentType, CommentView};
use crate::statements::comment::comment_code;
use crate::text::{
    find, find_from, leading, lemma_find, lemma_find_is, lemma_leading, lemma_leading_concat,
    lemma_prefix_chars, lemma_stands_alike, lemma_trim_end, run_end, slice_string, stands_at,
    to_chars, trim_end, CharClass,
};

verus! {

/// A single-line comment: spaces and tabs, `//`, then the rest of the line,
/// of which there must be some.
pub open spec fn match_single_line_comment(s: Seq<char>) -> Option<Matched<CommentView>> {
    let t = skip_blanks(s);
    if "//"@.is_prefix_of(t) {
        let body = t.skip("//"@.len() as int);
        let n = leading(body, CharClass::LineText);
        if n > 0 {
            Some(
                Matched {
                    rest: body.skip(n as int),
                    value: CommentView { data: body.take(n as int), ty: CommentType::Single },
                },
            )
        } else {
            None
        }
    } else {
        None
    }
}

/// A multi-line comment: spaces and tabs, `/*`, then everything up to the
/// first `*/`.
pub open spec fn match_multi_line_comment(s: Seq<char>) -> Option<Matched<CommentView>> {
    let t = skip_blanks(s);
    if "/*"@.is_prefix_of(t) {
        let body = t.skip("/*"@.len() as int);
        match find(body, "*/"@) {
            Some(n) => Some(
                Matched {
                    rest: body.skip(n + "*/"@.len()),
                    value: CommentView { data: body.take(n), ty: CommentType::Multi },
                },
            ),
            None => None,
        }
    } else {
        None
    }
}

/// A comment of either form; the single-line form is tried first.
pub open spec fn match_comment(s: Seq<char>) -> Option<Matched<CommentView>> {
    match match_single_line_comment(s) {
        Some(m) => Some(m),
        None => match_multi_line_comment(s),
    }
}

/// A comment that is matched is taken off the start of `s`.
pub proof fn lemma_comment_advances(s: Seq<char>)
    ensures
        match_single_line_comment(s) matches Some(m) ==> follows(m.rest, s),
        match_multi_line_comment(s) matches Some(m) ==> follows(m.rest, s),
        match_comment(s) matches Some(m) ==> follows(m.rest, s),
{
    lemma_skip_blanks(s);
    let t = skip_blanks(s);
    let blanks = s.len() - t.len();
    if let Some(m) = match_single_line_comment(s) {
        let body = t.skip("//"@.len() as int);
        let n = leading(body, CharClass::LineText);
        lemma_leading(body, CharClass::LineText);
        assert(m.rest =~= s.skip(blanks + "//"@.len() + n));
    }
    if let Some(m) = match_multi_line_comment(s) {
        reveal_strlit("/*");
        let body = t.skip("/*"@.len() as int);
        lemma_find(body, "*/"@);
        let n = find(body, "*/"@).unwrap();
        assert(m.rest =~= s.skip(blanks + "/*"@.len() + n + "*/"@.len()));
    }
}

/// The comment that a matcher gives is wellformed.
pub proof fn lemma_comment_wellformed(s: Seq<char>)
    ensures
        match_single_line_comment(s) matches Some(m) ==> m.value.is_wellformed(),
        match_multi_line_comment(s) matches Some(m) ==> m.value.is_wellformed(),
        match_comment(s) matches Some(m) ==> m.value.is_wellformed(),
{
    let t = skip_blanks(s);
    if let Some(m) = match_single_line_comment(s) {
        let body = t.skip("//"@.len() as int);
        lemma_leading(body, CharClass::LineText);
    }
    if let Some(m) = match_multi_line_comment(s) {
        reveal_strlit("*/");
        let body = t.skip("/*"@.len() as int);
        lemma_find(body, "*/"@);
        let n = find(body, "*/"@).unwrap();
        let data = body.take(n);
        let closed = data + "*/"@;
        lemma_prefix_chars("*/"@, body.skip(n));
        assert(body[n] == body.skip(n)[0]);
        assert(closed.skip(n) =~= "*/"@);
        assert forall|j: int| 0 <= j < n implies !"*/"@.is_prefix_of(#[trigger] closed.skip(j)) by {
            assert forall|k: int| j <= k < j + 2 && k < closed.len() implies k < body.len()
                && closed[k] == body[k] by {
                if k < n {
                    assert(closed[k] == data[k]);
                }
            }
            lemma_stands_alike("*/"@, closed, body, j);
        }
        lemma_find_is(closed, "*/"@, n);
    }
}

/// The source text of a readable comment reads as the comment that it
/// shows, whatever follows it; behind a single-line comment the line must
/// end.
pub proof fn lemma_comment_reads_back(c: CommentView, x: Seq<char>)
    requires
        c.is_readable(),
        c.ty == CommentType::Single ==> x.len() == 0 || !CharClass::LineText.holds(x[0]),
    ensures
        match_comment(comment_code(c) + x) == Some(Matched { rest: x, value: c.written() }),
{
    reveal_strlit("//");
    reveal_strlit("/*");
    reveal_strlit("*/");
    let s = comment_code(c) + x;
    assert(s[0] == '/');
    assert(skip_blanks(s) =~= s);
    match c.ty {
        CommentType::Single => {
            let d = trim_end(c.data);
            lemma_trim_end(c.data);
            lemma_prefix_chars("//"@, s);
            let body = s.skip(2);
            assert(body =~= d + x);
            assert forall|j: int| 0 <= j < d.len() implies CharClass::LineText.holds(
                #[trigger] d[j],
            ) by {
                assert(d[j] == c.data[j]);
            }
            lemma_leading_concat(d, x, CharClass::LineText);
            assert(body.skip(d.len() as int) =~= x);
            assert(body.take(d.len() as int) =~= d);
        },
        CommentType::Multi => {
            assert(s[1] == '*');
            lemma_prefix_chars("//"@, s);
            lemma_prefix_chars("/*"@, s);
            assert(match_single_line_comment(s) is None);
            let n = c.data.len() as int;
            let body = s.skip(2);
            let closed = c.data + "*/"@;
            assert(body =~= closed + x);
            lemma_find(closed, "*/"@);
            assert(body.skip(n) =~= "*/"@ + x);
            lemma_prefix_chars("*/"@, body.skip(n));
            assert forall|j: int| 0 <= j < n implies !"*/"@.is_prefix_of(#[trigger] body.skip(j)) by {
                lemma_stands_alike("*/"@, closed, body, j);
            }
            lemma_find_is(body, "*/"@, n);
            assert(body.skip(n + 2) =~= x);
            assert(body.take(n) =~= c.data);
        },
    }
}

/// Matches a single-line comment at `pos`, and gives the position after it.
pub fn single_line_comment_at(text: &str, chars: &Vec<char>, pos: usize) -> (r: Option<
    (usize, Comment),
>)
    requires
        chars@ == text@,
        pos <= chars.len(),
    ensures
        match r {
            Some((end, c)) => {
                &&& pos < end <= chars.len()
                &&& match_single_line_comment(chars@.skip(pos as int)) == Some(
                    Matched { rest: chars@.skip(end as int), value: c@ },
                )
            },
            None => match_single_line_comment(chars@.skip(pos as int)) is None,
        },
{
    let at = run_end(chars, pos, chars.len(), CharClass::Blank);
    let opening = to_chars("//");
    let ghost t = skip_blanks(chars@.skip(pos as int));
    proof {
        assert(t =~= chars@.skip(at as int));
    }
    if !stands_at(chars, at, &opening) {
        return None;
    }
    let start = at + opening.len();
    let end = run_end(chars, start, chars.len(), CharClass::LineText);
    let ghost body = t.skip("//"@.len() as int);
    proof {
        assert(body =~= chars@.skip(start as int));
    }
    if end == start {
        return None;
    }
    let data = slice_string(text, start, end);
    proof {
        assert(body.skip(end - start) =~= chars@.skip(end as int));
        assert(body.take(end - start) =~= text@.subrange(start as int, end as int));
    }
    Some((end, Comment { data, ty: CommentType::Single }))
}

/// Matches a multi-line comment at `pos`, and gives the position after it.
pub fn multi_line_comment_at(text: &str, chars: &Vec<char>, pos: usize) -> (r: Option<
    (usize, Comment),
>)
    requires
        chars@ == text@,
        pos <= chars.len(),
    ensures
        match r {
            Some((end, c)) => {
                &&& pos < end <= chars.len()
                &&& match_multi_line_comment(chars@.skip(pos as int)) == Some(
                    Matched { rest: chars@.skip(end as int), value: c@ },
                )
            },
            None => match_multi_line_comment(chars@.skip(pos as int)) is None,
        },
{
    let at = run_end(chars, pos, chars.len(), CharClass::Blank);
    let opening = to_chars("/*");
    let closing = to_chars("*/");
    let ghost t = skip_blanks(chars@.skip(pos as int));
    proof {
        assert(t =~= chars@.skip(at as int));
    }
    if !stands_at(chars, at, &opening) {
        return None;
    }
    let start = at + opening.len();
    let ghost body = t.skip("/*"@.len() as int);
    proof {
        reveal_strlit("/*");
        assert(body =~= chars@.skip(start as int));
    }
    match find_from(chars, start, &closing) {
        Some(stop) => {
            proof {
                assert(closing@.is_prefix_of(chars@.skip(stop as int))) by {
                    lemma_find(body, closing@);
                    assert(body.skip(stop - start) =~= chars@.skip(stop as int));
                }
            }
            let end = stop + closing.len();
            let data = slice_string(text, start, stop);
            proof {
                assert(body.skip(stop - start + "*/"@.len()) =~= chars@.skip(end as int));
                assert(body.take(stop - start) =~= text@.subrange(start as int, stop as int));
            }
            Some((end, Comment { data, ty: CommentType::Multi }))
        },
        None => None,
    }
}

/// Matches a comment of either form at `pos`, and gives the position after
/// it.
pub fn comment_at(text: &str, chars: &Vec<char>, pos: usize) -> (r: Option<(usize, Comment)>)
    requires
        chars@ == text@,
        pos <= chars.len(),
    ensures
        match r {
            Some((end, c)) => {
                &&& pos < end <= chars.len()
                &&& match_comment(chars@.skip(pos as int)) == Some(
                    Matched { rest: chars@.skip(end as int), value: c@ },
                )
            },
            None => match_comment(chars@.skip(pos as int)) is None,
        },
{
    match single_line_comment_at(text, chars, pos) {
        Some(found) => Some(found),
        None => multi_line_comment_at(text, chars, pos),
    }
}

/// Matches a single-line comment at the start of `input`.
pub fn single_line_comment(input: &str) -> (r: Result<(&str, Comment), NoMatch>)
    ensures
        match r {
            Ok((rest, c)) => match_single_line_comment(input@) == Some(
                Matched { rest: rest@, value: c@ },
            ),
            Err(_) => match_single_line_comment(input@) is None,
        },
{
    let chars = to_chars(input);
    proof {
        assert(chars@.skip(0) =~= input@);
    }
    match single_line_comment_at(input, &chars, 0) {
        Some((end, c)) => Ok((input.substring_char(end, chars.len()), c)),
        None => Err(NoMatch),
    }
}

/// Matches a multi-line comment at the start of `input`.
pub fn multi_line_comment(input: &str) -> (r: Result<(&str, Comment), NoMatch>)
    ensures
        match r {
            Ok((rest, c)) => match_multi_line_comment(input@) == Some(
                Matched { rest: rest@, value: c@ },
            ),
            Err(_) => match_multi_line_comment(input@) is None,
        },
{
    let chars = to_chars(input);
    proof {
        assert(chars@.skip(0) =~= input@);
    }
    match multi_line_comment_at(input, &chars, 0) {
        Some((end, c)) => Ok((input.substring_char(end, chars.len()), c)),
        None => Err(NoMatch),
    }
}

/// Matches a comment of either form at the start of `input`.
pub fn comment(input: &str) -> (r: Result<(&str, Comment), NoMatch>)
    ensures
        match r {
            Ok((rest, c)) => match_comment(input@) == Some(Matched { rest: rest@, value: c@ }),
            Err(_) => match_comment(input@) is None,
        },
{
    let chars = to_chars(input);
    proof {
        assert(chars@.skip(0) =~= input@);
    }
    match comment_at(input, &chars, 0) {
        Some((end, c)) => Ok((input.substring_char(end, chars.len()), c)),
        None => Err(NoMatch),
    }
}

} // verus!
