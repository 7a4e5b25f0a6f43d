//! The matchers of the library, held against the same grammar written with
//! the combinators of `nom`.

use std::collections::HashMap;

use jisort::file::File;
use jisort::parser;
use nom::{
    branch::alt,
    bytes::complete::{escaped, is_not, tag, take_until, take_until1},
    character::complete::{char, line_ending, none_of, one_of, space0, space1},
    combinator::{cond, opt, peek},
    sequence::delimited,
    IResult,
};


type Comment = (String, bool);
type Import = (Option<String>, String, Option<Comment>);

fn nom_single_line_comment(input: &str) -> IResult<&str, Comment> {
    let (input, _) = space0(input)?;
    let (input, _) = tag("//")(input)?;
    let (input, comment) = is_not("\n\r")(input)?;
    Ok((input, (comment.to_owned(), true)))
}

fn nom_multi_line_comment(input: &str) -> IResult<&str, Comment> {
    let (input, _) = space0(input)?;
    let (input, comment) = delimited(tag("/*"), take_until("*/"), tag("*/"))(input)?;
    Ok((input, (comment.to_owned(), false)))
}

fn nom_comment(input: &str) -> IResult<&str, Comment> {
    alt((nom_single_line_comment, nom_multi_line_comment))(input)
}

fn nom_empty_line(input: &str) -> IResult<&str, ()> {
    let (input, _) = space0(input)?;
    let (input, _) = line_ending(input)?;
    Ok((input, ()))
}

fn nom_js_string(input: &str) -> IResult<&str, &str> {
    let (input, quote) = alt((char('\''), char('"')))(input)?;
    let (input, string) = escaped(none_of(r#"\"'"#), '\\', one_of(r#"'"n\"#))(input)?;
    let (input, _) = char(quote)(input)?;
    Ok((input, string))
}

fn nom_import_statement(input: &str) -> IResult<&str, Import> {
    let (input, _) = tag("import")(input)?;
    let (input, _) = space1(input)?;
    let direct_import = peek(nom_js_string)(input).is_ok();
    let (input, identifier) = cond(!direct_import, take_until1("from"))(input)?;
    let (input, _) = cond(identifier.is_some(), tag("from"))(input)?;
    let (input, _) = space0(input)?;
    let (input, module) = nom_js_string(input)?;
    let (input, _) = opt(char(';'))(input)?;
    let (input, comment) = opt(nom_comment)(input)?;
    Ok((
        input,
        (
            identifier.map(|s: &str| s.trim().to_owned()),
            module.to_owned(),
            comment,
        ),
    ))
}

fn comment_of(c: jisort::statements::Comment) -> Comment {
    (c.data, c.ty == jisort::statements::CommentType::Single)
}

fn import_of(i: jisort::statements::ImportStatement) -> Import {
    (i.identifiers, i.module, i.comment.map(comment_of))
}

/// Texts made of the pieces that the grammar looks at, in an order that a
/// fixed sequence of numbers decides.
fn texts(count: usize, pieces: &[&str], longest: usize) -> Vec<String> {
    let mut state: u64 = 0x2545_f491_4f6c_dd1d;
    let mut next = move |bound: usize| {
        state ^= state << 13;
        state ^= state >> 7;
        state ^= state << 17;
        (state % bound as u64) as usize
    };
    let mut all = Vec::new();
    for _ in 0..count {
        let len = next(longest + 1);
        let mut text = String::new();
        for _ in 0..len {
            text.push_str(pieces[next(pieces.len())]);
        }
        all.push(text);
    }
    all
}

const PIECES: [&str; 28] = [
    "import", "from", " ", " ", "\t", "\n", "\r", "\r\n", "'", "'", "\"", "\\", "\\'", "\\n",
    ";", "//", "/*", "*/", "*", "/", "x", "{ a, b }", "./m", "fr", "om", "é", "\u{a0}", "n",
];

const STARTS: [&str; 10] = [
    "", "import ", "import x from ", "import '", "import x from '", "//", "/*", " ", "'", "\"",
];

fn corpus() -> Vec<String> {
    let mut all = Vec::new();
    for tail in texts(6000, &PIECES, 10) {
        for start in STARTS {
            all.push(format!("{}{}", start, tail));
        }
    }
    all
}

#[test]
fn empty_line_agrees_with_combinators() {
    for text in corpus() {
        let expected = nom_empty_line(&text).ok();
        let found = parser::empty_line(&text).ok();
        assert_eq!(found, expected, "{:?}", text);
    }
}

#[test]
fn comments_agree_with_combinators() {
    for text in corpus() {
        let expected = nom_single_line_comment(&text).ok();
        let found = parser::single_line_comment(&text).ok().map(|(r, c)| (r, comment_of(c)));
        assert_eq!(found, expected, "{:?}", text);

        let expected = nom_multi_line_comment(&text).ok();
        let found = parser::multi_line_comment(&text).ok().map(|(r, c)| (r, comment_of(c)));
        assert_eq!(found, expected, "{:?}", text);

        let expected = nom_comment(&text).ok();
        let found = parser::comment(&text).ok().map(|(r, c)| (r, comment_of(c)));
        assert_eq!(found, expected, "{:?}", text);
    }
}

#[test]
fn js_string_agrees_with_combinators() {
    for text in corpus() {
        let expected = nom_js_string(&text).ok();
        let found = parser::js_string(&text).ok();
        assert_eq!(found, expected, "{:?}", text);
    }
}

#[test]
fn import_statement_agrees_with_combinators() {
    let mut matched = 0;
    for text in corpus() {
        let expected = nom_import_statement(&text).ok();
        let found = parser::import_statement(&text).ok().map(|(r, i)| (r, import_of(i)));
        if found.is_some() {
            matched += 1;
        }
        assert_eq!(found, expected, "{:?}", text);
    }
    assert!(matched > 100);
}

fn category(module: &str) -> u8 {
    if module == "@" || module.starts_with("@/") {
        3
    } else if module.ends_with(".css") {
        5
    } else if module.starts_with('@') {
        1
    } else if module.starts_with('.') {
        4
    } else if ["react", "lodash", "prop-types"].contains(&module) {
        0
    } else {
        2
    }
}

fn comment_text(comment: &Comment) -> String {
    if comment.1 {
        format!("//{}", comment.0.trim_end())
    } else {
        format!("/*{}*/", comment.0)
    }
}

fn import_text(import: &Import) -> String {
    let tail = import
        .2
        .as_ref()
        .map_or(String::new(), |c| format!(" {}", comment_text(c)));
    match &import.0 {
        Some(names) => format!("import {} from '{}';{}", names, import.1, tail),
        None => format!("import '{}';{}", import.1, tail),
    }
}

struct Head {
    imports: Vec<Import>,
    comments: HashMap<usize, Vec<Comment>>,
    rest: String,
}

fn nom_parse(text: &str) -> Head {
    let mut head = Head {
        imports: Vec::new(),
        comments: HashMap::new(),
        rest: String::new(),
    };
    let mut program = text;
    loop {
        if let Ok((input, import)) = nom_import_statement(program) {
            head.imports.push(import);
            program = input;
        } else if let Ok((input, comment)) = nom_comment(program) {
            head.comments
                .entry(head.imports.len())
                .or_default()
                .push(comment);
            program = input;
        } else if let Ok((input, _)) = nom_empty_line(program) {
            program = input;
        } else {
            head.rest = program.to_owned();
            return head;
        }
    }
}

fn nom_order(head: &Head) -> Vec<usize> {
    let imports = &head.imports;
    let mut order: Vec<usize> = (0..imports.len()).collect();
    order.sort_by(|a, b| {
        (category(&imports[*a].1), &imports[*a].1).cmp(&(category(&imports[*b].1), &imports[*b].1))
    });
    order
}

fn nom_sorted(head: &Head) -> Vec<Import> {
    nom_order(head)
        .into_iter()
        .map(|at| head.imports[at].clone())
        .collect()
}

fn push_comments(text: &mut String, comments: Option<&Vec<Comment>>) {
    for comment in comments.into_iter().flatten() {
        text.push_str(&comment_text(comment));
        text.push('\n');
    }
}

fn nom_fix(head: &Head) -> String {
    let imports = nom_sorted(head);
    let mut text = String::new();
    let mut last = imports.first().map_or(0, |i| category(&i.1));
    for (place, at) in nom_order(head).into_iter().enumerate() {
        let import = &head.imports[at];
        if last != category(&import.1) {
            last = category(&import.1);
            text.push('\n');
        }
        if place == 0 {
            push_comments(&mut text, head.comments.get(&0));
        }
        if at > 0 {
            push_comments(&mut text, head.comments.get(&at));
        }
        text.push_str(&import_text(import));
        text.push('\n');
    }
    if let Some(comments) = head.comments.get(&imports.len()) {
        if !head.imports.is_empty() {
            text.push('\n');
        }
        for comment in comments {
            text.push_str(&comment_text(comment));
            text.push('\n');
        }
    } else if !imports.is_empty() && !head.rest.is_empty() {
        text.push('\n');
    }
    text + &head.rest
}

const LINES: [&str; 24] = [
    "import a from 'a';",
    "import a from 'a'",
    "import z from \"z\";",
    "import 'm.css'",
    "import './m.css';",
    "import { b, c } from '@/b'; // why",
    "import * as d from '@d/d' /* how */",
    "import e from './e'; //  ",
    "import react from 'react';",
    "import _ from 'lodash'",
    "import f\n  from 'f';",
    "import 'a' from 'g';",
    "// note",
    "  // note  ",
    "//",
    "/* two\nlines */",
    "/* one */ import h from 'h';",
    "",
    "   ",
    "\r",
    "const x = 1;",
    "export default x;",
    "import(\"lazy\");",
    "import a from 'a'; import b from 'b';",
];

fn files() -> Vec<String> {
    let mut all = Vec::new();
    let mut state: u64 = 0x9e37_79b9_7f4a_7c15;
    let mut next = move |bound: usize| {
        state ^= state << 13;
        state ^= state >> 7;
        state ^= state << 17;
        (state % bound as u64) as usize
    };
    for _ in 0..4000 {
        let count = next(9);
        let mut text = String::new();
        for _ in 0..count {
            text.push_str(LINES[next(LINES.len())]);
            if next(8) != 0 {
                text.push('\n');
            }
        }
        all.push(text);
    }
    all.extend(texts(4000, &PIECES, 14));
    all
}

#[test]
fn parse_agrees_with_combinators() {
    let file = File::new("a.js".to_owned());
    for text in files() {
        let expected = nom_parse(&text);
        let found = file.parse(&text);
        let imports: Vec<Import> = found.imports.iter().cloned().map(import_of).collect();
        assert_eq!(imports, expected.imports, "{:?}", text);
        assert_eq!(found.rest, expected.rest, "{:?}", text);
        assert_eq!(found.statements.len(), expected.comments.len(), "{:?}", text);
        for (index, comments) in &expected.comments {
            let list: Vec<Comment> = found.statements[index].iter().cloned().map(comment_of).collect();
            assert_eq!(&list, comments, "{:?}", text);
        }
        let dangerous = expected
            .comments
            .keys()
            .any(|k| *k > 0 && *k < expected.imports.len());
        assert_eq!(found.is_dangerous(), dangerous, "{:?}", text);
    }
}

#[test]
fn fix_agrees_with_combinators() {
    let file = File::new("a.js".to_owned());
    let mut changed = 0;
    for text in files() {
        let expected = nom_parse(&text);
        let found = file.parse(&text);
        let fixed = file.fix(&found);
        assert_eq!(fixed, nom_fix(&expected), "{:?}", text);
        assert_eq!(file.check(&found), nom_sorted(&expected) == expected.imports, "{:?}", text);
        if fixed != text {
            changed += 1;
        }
    }
    assert!(changed > 1000);
}
