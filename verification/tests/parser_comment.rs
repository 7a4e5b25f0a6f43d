use jisort::parser::{comment, multi_line_comment, single_line_comment};
use jisort::statements::CommentType;

#[test]
fn single_line() {
    let (rest, comment) = single_line_comment("// foo").unwrap();

    assert_eq!(rest, "");
    assert_eq!(comment.data, " foo")
}

/// A multi-line comment on one line.
#[test]
fn multi_line_inline() {
    let (rest, comment) = multi_line_comment("/* foo */").unwrap();

    assert_eq!(rest, "");
    assert_eq!(comment.data, " foo ")
}

/// A multi-line comment on several lines.
#[test]
fn multi_line() {
    let (rest, comment) = multi_line_comment("/*\n foo \n*/").unwrap();

    assert_eq!(rest, "");
    assert_eq!(comment.data, "\n foo \n")
}

#[test]
fn single_line_stops_before_line_break() {
    let (rest, comment) = single_line_comment(" \t// a b \r\nnext").unwrap();

    assert_eq!(rest, "\r\nnext");
    assert_eq!(comment.data, " a b ");
    assert_eq!(comment.ty, CommentType::Single);
}

#[test]
fn single_line_needs_text() {
    assert!(single_line_comment("//").is_err());
    assert!(single_line_comment("//\nfoo").is_err());
    assert!(single_line_comment("/ / foo").is_err());
    assert!(single_line_comment("").is_err());
    assert!(single_line_comment("\n// foo").is_err());
}

#[test]
fn multi_line_stops_at_first_end() {
    let (rest, comment) = multi_line_comment("  /* a */ b */").unwrap();

    assert_eq!(rest, " b */");
    assert_eq!(comment.data, " a ");
    assert_eq!(comment.ty, CommentType::Multi);
}

#[test]
fn multi_line_may_be_empty() {
    let (rest, comment) = multi_line_comment("/**/x").unwrap();

    assert_eq!(rest, "x");
    assert_eq!(comment.data, "");
}

#[test]
fn multi_line_needs_end() {
    assert!(multi_line_comment("/* foo").is_err());
    assert!(multi_line_comment("/*/").is_err());
    assert!(multi_line_comment("* foo */").is_err());
}

#[test]
fn comment_tries_both_forms() {
    let (rest, single) = comment("// é\n").unwrap();
    assert_eq!(rest, "\n");
    assert_eq!(single.data, " é");
    assert_eq!(single.ty, CommentType::Single);

    let (rest, multi) = comment("/* é */\n").unwrap();
    assert_eq!(rest, "\n");
    assert_eq!(multi.data, " é ");
    assert_eq!(multi.ty, CommentType::Multi);

    assert!(comment("import x from 'y'").is_err());
}
