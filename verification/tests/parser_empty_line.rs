use jisort::parser::empty_line;

#[test]
fn dont_parse_nothing() {
    let res = empty_line("");

    assert!(res.is_err());
}

#[test]
fn parse_newline() {
    let (rest, _) = empty_line("\n").unwrap();

    assert_eq!(rest, "");
}

#[test]
fn parse_carriage_return() {
    let (rest, _) = empty_line("\r\n").unwrap();

    assert_eq!(rest, "");
}

#[test]
fn parse_with_spaces() {
    let (rest, _) = empty_line("  \n").unwrap();

    assert_eq!(rest, "");
}

#[test]
fn parse_with_tab() {
    let (rest, _) = empty_line("\t\n").unwrap();

    assert_eq!(rest, "");
}

#[test]
fn empty_line_takes_one_line() {
    let (rest, _) = empty_line(" \t \n\n x").unwrap();
    assert_eq!(rest, "\n x");
    let (rest, _) = empty_line("\r\n\r\n").unwrap();
    assert_eq!(rest, "\r\n");
}

#[test]
fn empty_line_rejects_text_and_lone_carriage_return() {
    assert!(empty_line("  x\n").is_err());
    assert!(empty_line("   ").is_err());
    assert!(empty_line("\r").is_err());
    assert!(empty_line("\rx\n").is_err());
    assert!(empty_line("\u{a0}\n").is_err());
}
