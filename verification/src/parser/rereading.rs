//! What the matchers make of the source text of a statement: the text of a
//! statement that a matcher gave reads as that statement again, but for a
//! few statements that are named here.

use vstd::prelude::*;

use super::comment::{lemma_comment_reads_back, lemma_comment_wellformed, match_comment};
use super::empty_line::match_empty_line;
use super::import::{
    is_escapable, is_quote, match_import_statement, match_import_tail, match_js_string,
    match_named_import, string_body,
};
use super::{skip_blanks, Matched};
use crate::statements::comment::{comment_code, CommentView};
use crate::statements::imports::import_statement::{import_code, ImportView};
use crate::text::{
    find, leading, lemma_find, lemma_find_is, lemma_leading_concat,
    is_whitespace, lemma_prefix_chars, lemma_stands_alike, lemma_stands_within, lemma_trim,
    lemma_trim_padded, trailing, trim, CharClass,
};

verus! {

/// Whether `text` is a text that stands between quotes: it is not empty, it
/// is made of plain characters and escapes, and so it ends where a quote
/// follows it.
pub open spec fn is_string_text(text: Seq<char>) -> bool {
    text.len() > 0 && string_body(text.push('\'')) == Some(text.len())
}

/// Whether `names` are bound names as a matcher gives them: there is no
/// whitespace at either end, and `from` stands nowhere in them.
pub open spec fn is_names_text(names: Seq<char>) -> bool {
    &&& leading(names, CharClass::Whitespace) == 0
    &&& trailing(names, CharClass::Whitespace) == 0
    &&& forall|j: int| 0 <= j <= names.len() ==> !"from"@.is_prefix_of(#[trigger] names.skip(j))
}

/// Whether the statement is one that a matcher gives.
pub open spec fn is_wellformed_import(i: ImportView) -> bool {
    &&& is_string_text(i.module)
    &&& i.identifiers matches Some(names) ==> is_names_text(names)
    &&& i.comment matches Some(c) ==> c.is_wellformed()
}

/// Whether `names` can be written as bound names and read again: they are
/// not empty, and what is written of them, up to the quote that opens the
/// module, does not read as a quoted string.
pub open spec fn is_plain_names(names: Seq<char>) -> bool {
    names.len() > 0 && match_js_string(names + " from '"@) is None
}

/// Whether the source text of the statement reads as the statement again.
/// It does where the statement is one that a matcher gives, its bound names
/// are plain, and its comment is readable.
pub open spec fn is_readable_import(i: ImportView) -> bool {
    &&& is_wellformed_import(i)
    &&& i.identifiers matches Some(names) ==> is_plain_names(names)
    &&& i.comment matches Some(c) ==> c.is_readable()
}

/// Where a text ends with a quote that no backslash before it escapes, the
/// text of a quoted string at its start ends within it, or there is none,
/// whatever follows.
pub proof fn lemma_string_body_within(s: Seq<char>, y: Seq<char>)
    requires
        s.len() >= 1,
        is_quote(s.last()),
        s.len() >= 2 ==> s[s.len() - 2] != '\\',
    ensures
        string_body(s + y) == string_body(s),
        string_body(s) matches Some(k) ==> k < s.len(),
    decreases s.len(),
{
    let t = s + y;
    assert(t[0] == s[0]);
    if s[0] == '\\' {
        assert(s.len() >= 2);
        assert(t[1] == s[1]);
        if is_escapable(s[1]) {
            let rest = s.skip(2);
            assert(rest.last() == s.last());
            if rest.len() >= 2 {
                assert(rest[rest.len() - 2] == s[s.len() - 2]);
            }
            lemma_string_body_within(rest, y);
            assert(t.skip(2) =~= rest + y);
        }
    } else if !is_quote(s[0]) {
        let rest = s.skip(1);
        assert(rest.last() == s.last());
        if rest.len() >= 2 {
            assert(rest[rest.len() - 2] == s[s.len() - 2]);
        }
        lemma_string_body_within(rest, y);
        assert(t.skip(1) =~= rest + y);
    }
}

/// Plain names that are written before the module do not read as a quoted
/// string, whatever the module is.
pub proof fn lemma_names_are_no_string(names: Seq<char>, y: Seq<char>)
    requires
        is_plain_names(names),
    ensures
        match_js_string(names + " from '"@ + y) is None,
{
    reveal_strlit(" from '");
    let p = names + " from '"@;
    let s = p + y;
    assert(s[0] == p[0]);
    if is_quote(p[0]) {
        let inner = p.skip(1);
        assert(inner.last() == '\'');
        assert(inner[inner.len() - 2] == ' ');
        lemma_string_body_within(inner, y);
        assert(s.skip(1) =~= inner + y);
        if let Some(k) = string_body(inner) {
            assert((inner + y)[k as int] == inner[k as int]);
        }
    }
}

/// The text of a quoted string ends at the quote that stopped it, whatever
/// follows that quote.
pub proof fn lemma_string_body_stop(s: Seq<char>, k: nat, y: Seq<char>)
    requires
        string_body(s) == Some(k),
        k < s.len(),
        y.len() > 0,
        is_quote(y[0]),
    ensures
        string_body(s.take(k as int) + y) == Some(k),
    decreases s.len(),
{
    let t = s.take(k as int) + y;
    if s[0] == '\\' {
        let rest = s.skip(2);
        let n = string_body(rest).unwrap();
        lemma_string_body_stop(rest, n, y);
        assert(t.skip(2) =~= rest.take(n as int) + y);
        assert(t[0] == s[0] && t[1] == s[1]);
    } else if is_quote(s[0]) {
        assert(t =~= y);
    } else {
        let rest = s.skip(1);
        let n = string_body(rest).unwrap();
        lemma_string_body_stop(rest, n, y);
        assert(t.skip(1) =~= rest.take(n as int) + y);
        assert(t[0] == s[0]);
    }
}

/// The text that the matcher of quoted strings gives is a string text.
pub proof fn lemma_js_string_wellformed(s: Seq<char>)
    ensures
        match_js_string(s) matches Some(m) ==> is_string_text(m.value),
{
    if let Some(m) = match_js_string(s) {
        let inner = s.skip(1);
        let n = string_body(inner).unwrap();
        lemma_string_body_stop(inner, n, seq!['\'']);
        assert(m.value.push('\'') =~= inner.take(n as int) + seq!['\'']);
    }
}

/// A string text between single quotes reads as that text, whatever
/// follows.
pub proof fn lemma_js_string_reads_back(text: Seq<char>, x: Seq<char>)
    requires
        is_string_text(text),
    ensures
        match_js_string("'"@ + text + "'"@ + x) == Some(Matched { rest: x, value: text }),
{
    reveal_strlit("'");
    let s = "'"@ + text + "'"@ + x;
    let inner = s.skip(1);
    let y = "'"@ + x;
    let n = text.len();
    assert(s[0] == '\'');
    assert(inner =~= text + y);
    assert(inner[n as int] == y[0]);
    lemma_string_body_stop(text.push('\''), n, y);
    assert(text.push('\'').take(n as int) =~= text);
    assert(inner.skip(n as int + 1) =~= x);
    assert(inner.take(n as int) =~= text);
}

/// The bound names that the matcher gives are names as a matcher gives
/// them.
pub proof fn lemma_names_wellformed(clause: Seq<char>)
    ensures
        find(clause, "from"@) matches Some(n) ==> is_names_text(trim(clause.take(n))),
{
    if let Some(n) = find(clause, "from"@) {
        lemma_find(clause, "from"@);
        let raw = clause.take(n);
        let names = trim(raw);
        lemma_trim(raw);
        let (from, to) = choose|from: int, to: int|
            0 <= from <= to <= raw.len() && names == raw.subrange(from, to);
        assert(names =~= clause.subrange(from, to));
        reveal_strlit("from");
        assert forall|j: int| 0 <= j <= names.len() implies !"from"@.is_prefix_of(
            #[trigger] names.skip(j),
        ) by {
            if "from"@.is_prefix_of(names.skip(j)) {
                lemma_stands_within("from"@, clause, from, to, j);
                assert(from + j + 4 <= to);
            }
        }
    }
}

/// A text that starts with a line feed reads as a blank line, and as
/// nothing else.
pub proof fn lemma_line_feed(x: Seq<char>)
    requires
        x.len() > 0,
        x[0] == '\n',
    ensures
        match_import_statement(x) is None,
        match_comment(x) is None,
        match_empty_line(x) == Some(Matched { rest: x.skip(1), value: () }),
{
    reveal_strlit("import");
    reveal_strlit("//");
    reveal_strlit("/*");
    lemma_prefix_chars("import"@, x);
    assert(skip_blanks(x) =~= x);
    lemma_prefix_chars("//"@, x);
    lemma_prefix_chars("/*"@, x);
}

/// The source text of a comment does not read as an import statement.
pub proof fn lemma_comment_is_no_import(c: CommentView, x: Seq<char>)
    ensures
        match_import_statement(comment_code(c) + x) is None,
{
    reveal_strlit("import");
    reveal_strlit("//");
    reveal_strlit("/*");
    let s = comment_code(c) + x;
    assert(s[0] == '/');
    lemma_prefix_chars("import"@, s);
}

/// What a comment matcher makes of a text is what it makes of the text
/// without the spaces and tabs at its start.
pub proof fn lemma_comment_after_blanks(blanks: Seq<char>, s: Seq<char>)
    requires
        forall|j: int| 0 <= j < blanks.len() ==> CharClass::Blank.holds(#[trigger] blanks[j]),
        s.len() == 0 || !CharClass::Blank.holds(s[0]),
    ensures
        match_comment(blanks + s) == match_comment(s),
{
    lemma_leading_concat(blanks, s, CharClass::Blank);
    assert(skip_blanks(blanks + s) =~= s);
    assert(skip_blanks(s) =~= s);
}

/// The written end of a statement: the comment after one space, where
/// there is one.
pub open spec fn comment_tail(comment: Option<CommentView>) -> Seq<char> {
    match comment {
        Some(c) => " "@ + comment_code(c),
        None => Seq::empty(),
    }
}

/// The written module and what follows it read as they were written.
pub proof fn lemma_import_tail_reads_back(
    blanks: Seq<char>,
    i: ImportView,
    x: Seq<char>,
)
    requires
        forall|j: int| 0 <= j < blanks.len() ==> CharClass::Blank.holds(#[trigger] blanks[j]),
        is_string_text(i.module),
        i.comment matches Some(c) ==> c.is_readable(),
        x.len() > 0,
        x[0] == '\n',
    ensures
        match_import_tail(
            blanks + "'"@ + i.module + "';"@ + comment_tail(i.comment) + x,
            i.identifiers,
        ) == Some(Matched { rest: x, value: i.written() }),
{
    reveal_strlit("'");
    reveal_strlit("';");
    reveal_strlit(" ");
    reveal_strlit("//");
    reveal_strlit("/*");
    let tail = comment_tail(i.comment);
    let s = blanks + "'"@ + i.module + "';"@ + tail + x;
    let quoted = "'"@ + i.module + "';"@ + tail + x;
    assert(s =~= blanks + quoted);
    assert(quoted[0] == '\'');
    lemma_leading_concat(blanks, quoted, CharClass::Blank);
    assert(skip_blanks(s) =~= quoted);
    let after_quote = ";"@ + tail + x;
    reveal_strlit(";");
    assert(quoted =~= "'"@ + i.module + "'"@ + after_quote);
    lemma_js_string_reads_back(i.module, after_quote);
    assert(after_quote[0] == ';');
    let after = after_quote.skip(1);
    assert(after =~= tail + x);
    match i.comment {
        Some(c) => {
            let code = comment_code(c) + x;
            assert(code[0] == '/');
            assert(after =~= " "@ + code);
            lemma_comment_after_blanks(" "@, code);
            lemma_comment_reads_back(c, x);
        },
        None => {
            assert(after =~= x);
            lemma_line_feed(x);
        },
    }
}

/// Behind bound names as a matcher gives them, the first `from` is the one
/// that is written behind them after a space.
pub proof fn lemma_from_behind_names(names: Seq<char>, y: Seq<char>)
    requires
        is_names_text(names),
    ensures
        find(names + " from"@ + y, "from"@) == Some(names.len() as int + 1),
{
    reveal_strlit("from");
    reveal_strlit(" from");
    let clause = names + " from"@ + y;
    let n = names.len() as int;
    assert(clause.skip(n + 1) =~= "from"@ + y);
    lemma_prefix_chars("from"@, clause.skip(n + 1));
    assert forall|j: int| 0 <= j < n + 1 implies !"from"@.is_prefix_of(
        #[trigger] clause.skip(j),
    ) by {
        if j + 4 <= n {
            lemma_stands_alike("from"@, names, clause, j);
        } else {
            lemma_prefix_chars("from"@, clause.skip(j));
            if "from"@.is_prefix_of(clause.skip(j)) {
                assert(clause.skip(j)[n - j] == clause[n]);
                assert(clause[n] == ' ');
            }
        }
    }
    lemma_find_is(clause, "from"@, n + 1);
}

/// The written bound names and what follows them read as they were
/// written.
pub proof fn lemma_named_import_reads_back(i: ImportView, x: Seq<char>)
    requires
        is_readable_import(i),
        i.identifiers is Some,
        x.len() > 0,
        x[0] == '\n',
    ensures
        match_named_import(
            i.identifiers.unwrap() + " from '"@ + i.module + "';"@ + comment_tail(i.comment) + x,
        ) == Some(Matched { rest: x, value: i.written() }),
{
    let names = i.identifiers.unwrap();
    let tail = comment_tail(i.comment);
    let clause = names + " from '"@ + i.module + "';"@ + tail + x;
    let ending = " '"@ + i.module + "';"@ + tail + x;
    let n = names.len() as int;
    assert(clause =~= names + " from"@ + ending && "from"@.len() == 4 && " "@.len() == 1
        && is_whitespace(" "@[0]) && " '"@ =~= " "@ + "'"@) by {
        reveal_strlit(" from '");
        reveal_strlit(" from");
        reveal_strlit(" '");
        reveal_strlit(" ");
        reveal_strlit("'");
        reveal_strlit("from");
    }
    lemma_from_behind_names(names, ending);
    assert(clause.take(n + 1) =~= Seq::<char>::empty() + names + " "@) by {
        reveal_strlit(" from '");
        reveal_strlit(" ");
    }
    lemma_trim_padded(Seq::empty(), names, " "@);
    assert(clause.skip(n + 1 + 4) =~= " "@ + "'"@ + i.module + "';"@ + tail + x) by {
        reveal_strlit(" from '");
        reveal_strlit(" ");
        reveal_strlit("'");
    }
    assert(CharClass::Blank.holds(" "@[0])) by {
        reveal_strlit(" ");
    }
    lemma_import_tail_reads_back(" "@, i, x);
}

/// Where a quoted module is written at once, it and what follows it read
/// as they were written.
pub proof fn lemma_direct_import_reads_back(i: ImportView, x: Seq<char>)
    requires
        is_readable_import(i),
        i.identifiers is None,
        x.len() > 0,
        x[0] == '\n',
    ensures
        match_js_string("'"@ + i.module + "';"@ + comment_tail(i.comment) + x) is Some,
        match_import_tail("'"@ + i.module + "';"@ + comment_tail(i.comment) + x, None) == Some(
            Matched { rest: x, value: i.written() },
        ),
{
    let tail = comment_tail(i.comment);
    let ending = "'"@ + i.module + "';"@ + tail + x;
    assert(ending =~= Seq::<char>::empty() + "'"@ + i.module + "';"@ + tail + x);
    lemma_import_tail_reads_back(Seq::empty(), i, x);
    lemma_js_string_reads_back(i.module, ";"@ + tail + x);
    assert(ending =~= "'"@ + i.module + "'"@ + (";"@ + tail + x)) by {
        reveal_strlit("'");
        reveal_strlit(";");
        reveal_strlit("';");
    }
}

/// The source text of a statement is `import`, a space, and the rest.
pub proof fn lemma_import_code_parts(i: ImportView)
    ensures
        import_code(i) == "import"@ + " "@ + (match i.identifiers {
            Some(names) => names + " from '"@,
            None => "'"@,
        }) + i.module + "';"@ + comment_tail(i.comment),
        "import"@.len() == 6,
        " "@.len() == 1,
        " "@[0] == ' ',
{
    reveal_strlit("import");
    reveal_strlit("import ");
    reveal_strlit("import '");
    reveal_strlit("'");
    reveal_strlit(" ");
    let head = match i.identifiers {
        Some(names) => names + " from '"@,
        None => "'"@,
    };
    assert(import_code(i) =~= "import"@ + " "@ + head + i.module + "';"@ + comment_tail(
        i.comment,
    ));
}

/// The source text of a readable statement reads as the statement that it
/// shows, where a line feed follows it.
pub proof fn lemma_import_reads_back(i: ImportView, x: Seq<char>)
    requires
        is_readable_import(i),
        x.len() > 0,
        x[0] == '\n',
    ensures
        match_import_statement(import_code(i) + x) == Some(
            Matched { rest: x, value: i.written() },
        ),
{
    let tail = comment_tail(i.comment);
    let s = import_code(i) + x;
    lemma_import_code_parts(i);
    let clause = match i.identifiers {
        Some(names) => names + " from '"@ + i.module + "';"@ + tail + x,
        None => "'"@ + i.module + "';"@ + tail + x,
    };
    assert(s =~= "import"@ + (" "@ + clause));
    lemma_prefix_chars("import"@, s);
    let after_keyword = s.skip(6);
    assert(after_keyword =~= " "@ + clause);
    assert(!CharClass::Blank.holds(clause[0])) by {
        reveal_strlit("'");
        match i.identifiers {
            Some(names) => {
                assert(clause[0] == names[0]);
                assert(!CharClass::Whitespace.holds(names[0]));
            },
            None => {
                assert(clause[0] == '\'');
            },
        }
    }
    lemma_leading_concat(" "@, clause, CharClass::Blank);
    assert(after_keyword.skip(1) =~= clause);
    match i.identifiers {
        Some(names) => {
            lemma_names_are_no_string(names, i.module + "';"@ + tail + x);
            assert(clause =~= names + " from '"@ + (i.module + "';"@ + tail + x));
            lemma_named_import_reads_back(i, x);
        },
        None => {
            lemma_direct_import_reads_back(i, x);
        },
    }
}

/// The statement that the matcher of import statements gives is one that a
/// matcher gives.
pub proof fn lemma_import_wellformed(s: Seq<char>)
    ensures
        match_import_statement(s) matches Some(m) ==> is_wellformed_import(m.value),
{
    if let Some(m) = match_import_statement(s) {
        let after_keyword = s.skip("import"@.len() as int);
        let gap = leading(after_keyword, CharClass::Blank);
        let clause = after_keyword.skip(gap as int);
        if match_js_string(clause) is Some {
            lemma_import_tail_wellformed(clause, None);
        } else {
            let n = find(clause, "from"@).unwrap();
            lemma_names_wellformed(clause);
            lemma_import_tail_wellformed(
                clause.skip(n + "from"@.len()),
                Some(trim(clause.take(n))),
            );
        }
    }
}

/// What follows the bound names holds a string text and a wellformed
/// comment, and gives the bound names back.
pub proof fn lemma_import_tail_wellformed(s: Seq<char>, identifiers: Option<Seq<char>>)
    ensures
        match_import_tail(s, identifiers) matches Some(m) ==> {
            &&& is_string_text(m.value.module)
            &&& m.value.identifiers == identifiers
            &&& m.value.comment matches Some(c) ==> c.is_wellformed()
        },
{
    let t = skip_blanks(s);
    lemma_js_string_wellformed(t);
    if let Some(module) = match_js_string(t) {
        let after = if module.rest.len() > 0 && module.rest[0] == ';' {
            module.rest.skip(1)
        } else {
            module.rest
        };
        lemma_comment_wellformed(after);
    }
}

} // verus!
