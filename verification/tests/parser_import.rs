use jisort::parser::{import_statement, js_string};
use jisort::statements::{Comment, CommentType, ImportStatement};

#[test]
fn simple_quote() {
    let (rest, string) = js_string("'foo'").unwrap();

    assert_eq!(rest, "");
    assert_eq!(string, "foo");
}

#[test]
fn double_quote() {
    let (rest, string) = js_string(r#""foo""#).unwrap();

    assert_eq!(rest, "");
    assert_eq!(string, "foo");
}

#[test]
fn escaped() {
    let (rest, string) = js_string(r#"'f\'oo'"#).unwrap();

    assert_eq!(rest, "");
    assert_eq!(string, r#"f\'oo"#);
}

#[test]
fn basic_import_from() {
    let (rest, import) = import_statement("import x from 'a-module';").unwrap();

    assert_eq!(rest, "");

    assert_eq!(
        import,
        ImportStatement {
            identifiers: Some("x".to_owned()),
            module: "a-module".to_owned(),
            comment: None
        }
    )
}

#[test]
fn import_from_destructuring() {
    let (rest, import) = import_statement("import { a, b } from 'a-module';").unwrap();

    assert_eq!(rest, "");

    assert_eq!(
        import,
        ImportStatement {
            identifiers: Some("{ a, b }".to_owned()),
            module: "a-module".to_owned(),
            comment: None
        }
    )
}

#[test]
fn import_without_from() {
    let (rest, import) = import_statement("import 'style.css';").unwrap();

    assert_eq!(rest, "");

    assert_eq!(
        import,
        ImportStatement {
            identifiers: None,
            module: "style.css".to_owned(),
            comment: None
        }
    )
}

/// An import without `from`, with an import with `from` on the next line.
#[test]
fn import_simple_from_next_line() {
    let (rest, import) =
        import_statement("import 'style.css';\nimport titi from 'toto';").unwrap();

    assert_eq!(rest, "\nimport titi from 'toto';");

    assert_eq!(
        import,
        ImportStatement {
            identifiers: None,
            module: "style.css".to_owned(),
            comment: None
        }
    )
}

/// An import with text behind the semicolon. The comment keeps the spaces at
/// both its ends.
#[test]
fn import_with_comment() {
    let (rest, import) =
        import_statement("import x from 'z'; // this is an import  ").unwrap();

    assert_eq!(rest, "");

    assert_eq!(
        import,
        ImportStatement {
            identifiers: Some("x".to_owned()),
            module: "z".to_owned(),
            comment: Some(Comment {
                data: " this is an import  ".to_owned(),
                ty: CommentType::Single
            })
        }
    )
}

#[test]
fn import_without_semicolon() {
    let (rest, import) = import_statement("import x from 'z'").unwrap();

    assert_eq!(rest, "");

    assert_eq!(
        import,
        ImportStatement {
            identifiers: Some("x".to_owned()),
            module: "z".to_owned(),
            comment: None
        }
    )
}

#[test]
fn string_keeps_escapes_and_stops_at_first_quote() {
    let (rest, string) = js_string(r#""a\n\\\"b"c"#).unwrap();
    assert_eq!(rest, "c");
    assert_eq!(string, r#"a\n\\\"b"#);

    let (rest, string) = js_string("'é/ü' x").unwrap();
    assert_eq!(rest, " x");
    assert_eq!(string, "é/ü");
}

#[test]
fn string_must_be_closed_and_not_empty() {
    assert!(js_string("").is_err());
    assert!(js_string("foo'").is_err());
    assert!(js_string("''").is_err());
    assert!(js_string("'").is_err());
    assert!(js_string("'foo").is_err());
    assert!(js_string(r#"'foo\"#).is_err());
    assert!(js_string(r#"'fo\o'"#).is_err());
    assert!(js_string(r#"'foo\'"#).is_err());
}

#[test]
fn string_must_end_with_the_quote_that_opened_it() {
    assert!(js_string("'a\"").is_err());
    assert!(js_string("\"a'").is_err());
    assert!(js_string(r#"'foo"bar'"#).is_err());
    assert!(js_string(r#""foo'bar""#).is_err());
    assert!(import_statement("import x from 'a\";").is_err());
    assert!(import_statement("import 'a\";").is_err());

    let (rest, string) = js_string(r#"'foo\"bar'"#).unwrap();
    assert_eq!(rest, "");
    assert_eq!(string, r#"foo\"bar"#);
}

#[test]
fn import_needs_keyword_and_blank() {
    assert!(import_statement("").is_err());
    assert!(import_statement(" import 'a';").is_err());
    assert!(import_statement("import'a';").is_err());
    assert!(import_statement("import\n'a';").is_err());
    assert!(import_statement("imports 'a';").is_err());
    assert!(import_statement("export x from 'a';").is_err());
}

#[test]
fn import_names_end_at_first_from() {
    assert!(import_statement("import from 'a';").is_err());
    assert!(import_statement("import fromage from 'a';").is_err());
    assert!(import_statement("import { from } from 'a';").is_err());
    assert!(import_statement("import x 'a';").is_err());
    assert!(import_statement("import x from a;").is_err());

    let (rest, import) = import_statement("import \t * as x\n  from \t\"a\" ;").unwrap();
    assert_eq!(rest, " ;");
    assert_eq!(
        import,
        ImportStatement {
            identifiers: Some("* as x".to_owned()),
            module: "a".to_owned(),
            comment: None
        }
    );

    let (rest, import) = import_statement("import\t\u{a0}x\u{2003}from'a'").unwrap();
    assert_eq!(rest, "");
    assert_eq!(import.identifiers, Some("x".to_owned()));
}

#[test]
fn import_names_may_be_empty_after_trimming() {
    let (rest, import) = import_statement("import \nfrom 'a';").unwrap();
    assert_eq!(rest, "");
    assert_eq!(
        import,
        ImportStatement {
            identifiers: Some(String::new()),
            module: "a".to_owned(),
            comment: None
        }
    );
}

#[test]
fn import_takes_comment_of_either_form() {
    let (rest, import) = import_statement("import 'a' /* b */ // c").unwrap();
    assert_eq!(rest, " // c");
    assert_eq!(
        import.comment,
        Some(Comment {
            data: " b ".to_owned(),
            ty: CommentType::Multi
        })
    );

    let (rest, import) = import_statement("import 'a';;// c").unwrap();
    assert_eq!(rest, ";// c");
    assert_eq!(import.comment, None);

    let (rest, import) = import_statement("import 'a'; //\nx").unwrap();
    assert_eq!(rest, " //\nx");
    assert_eq!(import.comment, None);
}
