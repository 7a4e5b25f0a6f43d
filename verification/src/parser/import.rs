use vstd::prelude::*;

use super::comment::{comment_at, lemma_comment_advances, match_comment};
use super::{follows, lemma_skip_blanks, skip_blanks, Matched, NoMatch};
use crate::statements::{ImportStatement, ImportView};
use crate::text::{
    find, find_from, leading, lemma_find, lemma_leading, run_end, slice_string, stands_at,
    to_chars, trim, trim_range, CharClass,
};

verus! {

/// The two characters that delimit a module specifier.
pub open spec fn is_quote(c: char) -> bool {
    c == '\'' || c == '"'
}

/// The characters that may follow a backslash in a module specifier.
pub open spec fn is_escapable(c: char) -> bool {
    c == '\'' || c == '"' || c == 'n' || c == '\\'
}

/// `length` moved on by `by` characters.
pub open spec fn advance(length: Option<nat>, by: nat) -> Option<nat> {
    match length {
        Some(n) => Some(n + by),
        None => None,
    }
}

/// The length of the text of a quoted string at the start of `s`: plain
/// characters and escapes, up to the first quote that no backslash escapes,
/// or up to the end of `s`. There is none where a backslash is the last
/// character or stands before a character that cannot be escaped.
pub open spec fn string_body(s: Seq<char>) -> Option<nat>
    decreases s.len(),
{
    if s.len() == 0 {
        Some(0)
    } else if s[0] == '\\' {
        if s.len() >= 2 && is_escapable(s[1]) {
            advance(string_body(s.skip(2)), 2)
        } else {
            None
        }
    } else if is_quote(s[0]) {
        Some(0)
    } else {
        advance(string_body(s.skip(1)), 1)
    }
}

/// A quoted string: a single or a double quote, a text of at least one
/// character, and the same quote again. The text ends at the first quote of
/// either kind that no backslash escapes; where that quote is not the one
/// that opened the string, there is no quoted string. The text is given as
/// it stands, escapes included.
pub open spec fn match_js_string(s: Seq<char>) -> Option<Matched<Seq<char>>> {
    if s.len() > 0 && is_quote(s[0]) {
        let inner = s.skip(1);
        match string_body(inner) {
            Some(n) => if 0 < n < inner.len() && inner[n as int] == s[0] {
                Some(Matched { rest: inner.skip(n as int + 1), value: inner.take(n as int) })
            } else {
                None
            },
            None => None,
        }
    } else {
        None
    }
}

/// What follows the bound names of an import statement: spaces and tabs, the
/// quoted module, a semicolon if there is one, and a comment if there is one.
pub open spec fn match_import_tail(s: Seq<char>, identifiers: Option<Seq<char>>) -> Option<
    Matched<ImportView>,
> {
    match match_js_string(skip_blanks(s)) {
        Some(module) => {
            let after = if module.rest.len() > 0 && module.rest[0] == ';' {
                module.rest.skip(1)
            } else {
                module.rest
            };
            match match_comment(after) {
                Some(c) => Some(
                    Matched {
                        rest: c.rest,
                        value: ImportView {
                            identifiers,
                            module: module.value,
                            comment: Some(c.value),
                        },
                    },
                ),
                None => Some(
                    Matched {
                        rest: after,
                        value: ImportView { identifiers, module: module.value, comment: None },
                    },
                ),
            }
        },
        None => None,
    }
}

/// The bound names of an import statement, which are all the text before
/// the first `from`, without the whitespace round it and with one character
/// at least before the `from`; then `from` and what follows.
pub open spec fn match_named_import(clause: Seq<char>) -> Option<Matched<ImportView>> {
    match find(clause, "from"@) {
        Some(n) => if n > 0 {
            match_import_tail(clause.skip(n + "from"@.len()), Some(trim(clause.take(n))))
        } else {
            None
        },
        None => None,
    }
}

/// An import statement: `import`, at least one space or tab, and then either
/// the quoted module at once, or the bound names, `from` and the quoted
/// module.
pub open spec fn match_import_statement(s: Seq<char>) -> Option<Matched<ImportView>> {
    if "import"@.is_prefix_of(s) {
        let after_keyword = s.skip("import"@.len() as int);
        let gap = leading(after_keyword, CharClass::Blank);
        let clause = after_keyword.skip(gap as int);
        if gap == 0 {
            None
        } else if match_js_string(clause) is Some {
            match_import_tail(clause, None)
        } else {
            match_named_import(clause)
        }
    } else {
        None
    }
}

/// A quoted string that is matched is taken off the start of `s`.
pub proof fn lemma_js_string_advances(s: Seq<char>)
    ensures
        match_js_string(s) matches Some(m) ==> follows(m.rest, s),
{
    if let Some(m) = match_js_string(s) {
        let inner = s.skip(1);
        let n = string_body(inner).unwrap();
        assert(m.rest =~= s.skip(n as int + 2));
    }
}

/// What follows the bound names, where it is matched, is taken off the
/// start of `s`.
pub proof fn lemma_import_tail_advances(s: Seq<char>, identifiers: Option<Seq<char>>)
    ensures
        match_import_tail(s, identifiers) matches Some(m) ==> follows(m.rest, s),
{
    lemma_skip_blanks(s);
    let t = skip_blanks(s);
    lemma_js_string_advances(t);
    if let Some(module) = match_js_string(t) {
        let after = if module.rest.len() > 0 && module.rest[0] == ';' {
            module.rest.skip(1)
        } else {
            module.rest
        };
        lemma_comment_advances(after);
        let m = match_import_tail(s, identifiers).unwrap();
        let a = s.len() - t.len();
        let b = t.len() - module.rest.len();
        let c = module.rest.len() - after.len();
        assert(after =~= s.skip(a + b + c));
        assert(m.rest =~= s.skip(s.len() - m.rest.len()));
    }
}

/// An import statement that is matched is taken off the start of `s`.
pub proof fn lemma_import_advances(s: Seq<char>)
    ensures
        match_import_statement(s) matches Some(m) ==> follows(m.rest, s),
{
    if let Some(m) = match_import_statement(s) {
        let keyword = "import"@.len() as int;
        let after_keyword = s.skip(keyword);
        let gap = leading(after_keyword, CharClass::Blank) as int;
        lemma_leading(after_keyword, CharClass::Blank);
        let clause = after_keyword.skip(gap);
        assert(clause =~= s.skip(keyword + gap));
        if match_js_string(clause) is Some {
            lemma_import_tail_advances(clause, None);
            assert(m.rest =~= s.skip(s.len() - m.rest.len()));
        } else {
            lemma_find(clause, "from"@);
            let n = find(clause, "from"@).unwrap();
            let tail = clause.skip(n + "from"@.len());
            assert(tail =~= s.skip(keyword + gap + n + "from"@.len()));
            lemma_import_tail_advances(tail, Some(trim(clause.take(n))));
            assert(m.rest =~= s.skip(s.len() - m.rest.len()));
        }
    }
}

/// Finds where the text of a quoted string that starts at `start` ends.
fn string_body_end(chars: &Vec<char>, start: usize) -> (r: Option<usize>)
    requires
        start <= chars.len(),
    ensures
        match r {
            Some(end) => start <= end <= chars.len() && string_body(chars@.skip(start as int))
                == Some((end - start) as nat),
            None => string_body(chars@.skip(start as int)) is None,
        },
{
    let mut i: usize = start;
    loop
        invariant
            start <= i <= chars.len(),
            string_body(chars@.skip(start as int)) == advance(
                string_body(chars@.skip(i as int)),
                (i - start) as nat,
            ),
        decreases chars.len() - i,
    {
        let ghost s = chars@.skip(i as int);
        if i == chars.len() {
            return Some(i);
        }
        let c = chars[i];
        proof {
            assert(s[0] == c);
        }
        if c == '\\' {
            if chars.len() - i >= 2 {
                let d = chars[i + 1];
                proof {
                    assert(s[1] == d);
                    assert(s.skip(2) =~= chars@.skip(i + 2));
                }
                if d == '\'' || d == '"' || d == 'n' || d == '\\' {
                    i += 2;
                } else {
                    return None;
                }
            } else {
                return None;
            }
        } else if c == '\'' || c == '"' {
            return Some(i);
        } else {
            proof {
                assert(s.skip(1) =~= chars@.skip(i + 1));
            }
            i += 1;
        }
    }
}

/// Matches a quoted string at `pos`, and gives the position of its closing
/// quote.
pub fn js_string_at(chars: &Vec<char>, pos: usize) -> (r: Option<usize>)
    requires
        pos <= chars.len(),
    ensures
        match r {
            Some(stop) => {
                &&& pos + 1 < stop < chars.len()
                &&& match_js_string(chars@.skip(pos as int)) == Some(
                    Matched {
                        rest: chars@.skip(stop + 1),
                        value: chars@.subrange(pos + 1, stop as int),
                    },
                )
            },
            None => match_js_string(chars@.skip(pos as int)) is None,
        },
{
    let ghost s = chars@.skip(pos as int);
    if pos == chars.len() {
        return None;
    }
    let open = chars[pos];
    proof {
        assert(s[0] == open);
    }
    if open != '\'' && open != '"' {
        return None;
    }
    let ghost inner = s.skip(1);
    proof {
        assert(inner =~= chars@.skip(pos + 1));
    }
    match string_body_end(chars, pos + 1) {
        Some(stop) => {
            if stop == pos + 1 || stop == chars.len() || chars[stop] != open {
                proof {
                    if stop < chars.len() {
                        assert(inner[stop - (pos + 1)] == chars@[stop as int]);
                    }
                }
                None
            } else {
                proof {
                    let n = stop - (pos + 1);
                    assert(inner[n] == chars@[stop as int]);
                    assert(inner.skip(n + 1) =~= chars@.skip(stop + 1));
                    assert(inner.take(n) =~= chars@.subrange(pos + 1, stop as int));
                }
                Some(stop)
            }
        },
        None => None,
    }
}

/// The view of bound names that may be absent.
pub open spec fn names_view(identifiers: Option<String>) -> Option<Seq<char>> {
    match identifiers {
        Some(id) => Some(id@),
        None => None,
    }
}

/// Matches, at `pos`, what follows the bound names of an import statement.
fn import_tail_at(text: &str, chars: &Vec<char>, pos: usize, identifiers: Option<String>) -> (r:
    Option<(usize, ImportStatement)>)
    requires
        chars@ == text@,
        pos <= chars.len(),
    ensures
        match r {
            Some((end, i)) => {
                &&& pos < end <= chars.len()
                &&& match_import_tail(chars@.skip(pos as int), names_view(identifiers)) == Some(
                    Matched { rest: chars@.skip(end as int), value: i@ },
                )
            },
            None => match_import_tail(chars@.skip(pos as int), names_view(identifiers)) is None,
        },
{
    let at = run_end(chars, pos, chars.len(), CharClass::Blank);
    proof {
        assert(skip_blanks(chars@.skip(pos as int)) =~= chars@.skip(at as int));
    }
    match js_string_at(chars, at) {
        Some(stop) => {
            let module = slice_string(text, at + 1, stop);
            let ghost rest = chars@.skip(stop + 1);
            let mut after = stop + 1;
            if after < chars.len() && chars[after] == ';' {
                after += 1;
            }
            proof {
                if rest.len() > 0 {
                    assert(rest[0] == chars@[stop + 1]);
                    assert(rest.skip(1) =~= chars@.skip(stop + 2));
                }
            }
            match comment_at(text, chars, after) {
                Some((end, c)) => Some(
                    (end, ImportStatement { identifiers, module, comment: Some(c) }),
                ),
                None => Some((after, ImportStatement { identifiers, module, comment: None })),
            }
        },
        None => None,
    }
}

/// Matches, at `clause`, the bound names of an import statement and what
/// follows them.
fn named_import_at(text: &str, chars: &Vec<char>, clause: usize) -> (r: Option<
    (usize, ImportStatement),
>)
    requires
        chars@ == text@,
        clause <= chars.len(),
    ensures
        match r {
            Some((end, i)) => {
                &&& clause < end <= chars.len()
                &&& match_named_import(chars@.skip(clause as int)) == Some(
                    Matched { rest: chars@.skip(end as int), value: i@ },
                )
            },
            None => match_named_import(chars@.skip(clause as int)) is None,
        },
{
    let from = to_chars("from");
    let ghost tail = chars@.skip(clause as int);
    match find_from(chars, clause, &from) {
        Some(stop) => {
            if stop == clause {
                None
            } else {
                proof {
                    assert(from@.is_prefix_of(chars@.skip(stop as int))) by {
                        lemma_find(tail, from@);
                        assert(tail.skip(stop - clause) =~= chars@.skip(stop as int));
                    }
                }
                let (first, last) = trim_range(chars, clause, stop);
                let identifiers = slice_string(text, first, last);
                let next = stop + from.len();
                proof {
                    assert(tail.take(stop - clause) =~= chars@.subrange(
                        clause as int,
                        stop as int,
                    ));
                    assert(tail.skip(stop - clause + "from"@.len()) =~= chars@.skip(next as int));
                }
                import_tail_at(text, chars, next, Some(identifiers))
            }
        },
        None => None,
    }
}

/// Matches an import statement at `pos`, and gives the position after it.
pub fn import_statement_at(text: &str, chars: &Vec<char>, pos: usize) -> (r: Option<
    (usize, ImportStatement),
>)
    requires
        chars@ == text@,
        pos <= chars.len(),
    ensures
        match r {
            Some((end, i)) => {
                &&& pos < end <= chars.len()
                &&& match_import_statement(chars@.skip(pos as int)) == Some(
                    Matched { rest: chars@.skip(end as int), value: i@ },
                )
            },
            None => match_import_statement(chars@.skip(pos as int)) is None,
        },
{
    let ghost s = chars@.skip(pos as int);
    let keyword = to_chars("import");
    if !stands_at(chars, pos, &keyword) {
        return None;
    }
    let after_keyword = pos + keyword.len();
    let clause = run_end(chars, after_keyword, chars.len(), CharClass::Blank);
    proof {
        assert(s.skip("import"@.len() as int) =~= chars@.skip(after_keyword as int));
        assert(chars@.skip(after_keyword as int).skip(clause - after_keyword) =~= chars@.skip(
            clause as int,
        ));
    }
    if clause == after_keyword {
        return None;
    }
    match js_string_at(chars, clause) {
        Some(_) => import_tail_at(text, chars, clause, None),
        None => named_import_at(text, chars, clause),
    }
}

/// Matches a quoted string at the start of `input`, and gives the text
/// between its quotes.
pub fn js_string(input: &str) -> (r: Result<(&str, &str), NoMatch>)
    ensures
        match r {
            Ok((rest, string)) => match_js_string(input@) == Some(
                Matched { rest: rest@, value: string@ },
            ),
            Err(_) => match_js_string(input@) is None,
        },
{
    let chars = to_chars(input);
    proof {
        assert(chars@.skip(0) =~= input@);
    }
    match js_string_at(&chars, 0) {
        Some(stop) => Ok(
            (input.substring_char(stop + 1, chars.len()), input.substring_char(1, stop)),
        ),
        None => Err(NoMatch),
    }
}

/// Matches an import statement at the start of `input`.
pub fn import_statement(input: &str) -> (r: Result<(&str, ImportStatement), NoMatch>)
    ensures
        match r {
            Ok((rest, i)) => match_import_statement(input@) == Some(
                Matched { rest: rest@, value: i@ },
            ),
            Err(_) => match_import_statement(input@) is None,
        },
{
    let chars = to_chars(input);
    proof {
        assert(chars@.skip(0) =~= input@);
    }
    match import_statement_at(input, &chars, 0) {
        Some((end, i)) => Ok((input.substring_char(end, chars.len()), i)),
        None => Err(NoMatch),
    }
}

} // verus!
