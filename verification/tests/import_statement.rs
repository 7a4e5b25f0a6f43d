use jisort::statements::{Comment, CommentType, ImportStatement, ImportType, Statement};

fn import(identifiers: Option<&str>, module: &str, comment: Option<Comment>) -> ImportStatement {
    ImportStatement {
        identifiers: identifiers.map(|id| id.to_owned()),
        module: module.to_owned(),
        comment,
    }
}

#[test]
fn module_sort() {
    let import1 = ImportStatement {
        identifiers: None,
        module: "abc".to_owned(),
        comment: None,
    };
    let import2 = ImportStatement {
        identifiers: None,
        module: "xyz".to_owned(),
        comment: None,
    };

    assert!(import1 < import2);
}

#[test]
fn category_counts_before_module() {
    let style = import(None, "a.css", None);
    let local = import(None, "./z", None);
    let global = import(Some("React"), "react", None);
    let module = import(None, "aaa", None);

    assert!(global < module);
    assert!(module < local);
    assert!(local < style);
    assert!(global.precedes(&style));
    assert!(!style.precedes(&global));
    assert!(!(style < global));
    assert!(style > global);
}

#[test]
fn names_and_comment_do_not_count_in_order() {
    let plain = import(None, "abc", None);
    let full = import(
        Some("x"),
        "abc",
        Some(Comment {
            data: "c".to_owned(),
            ty: CommentType::Single,
        }),
    );

    assert!(!plain.precedes(&full));
    assert!(!full.precedes(&plain));
    assert!(plain <= full);
    assert!(plain >= full);
    assert!(plain != full);
    assert_eq!(plain.partial_cmp(&full), Some(std::cmp::Ordering::Equal));
}

#[test]
fn modules_are_ordered_as_strings_are() {
    let names = ["", "a", "ab", "abc", "abd", "b", "B", "é", "e", "z", "\u{10000}", "\u{ffff}"];
    for a in names {
        for b in names {
            let left = import(None, &format!("m{}", a), None);
            let right = import(None, &format!("m{}", b), None);
            assert_eq!(left.precedes(&right), a < b);
            assert_eq!(left.partial_cmp(&right), Some(a.cmp(b)));
        }
    }
}

#[test]
fn import_code_with_names() {
    assert_eq!(
        import(Some("{ a, b }"), "a-module", None).code(),
        "import { a, b } from 'a-module';"
    );
}

#[test]
fn import_code_without_names() {
    assert_eq!(import(None, "./style.css", None).code(), "import './style.css';");
}

#[test]
fn import_code_with_comment() {
    let single = Comment {
        data: " this is an import  ".to_owned(),
        ty: CommentType::Single,
    };
    assert_eq!(
        import(Some("x"), "z", Some(single)).code(),
        "import x from 'z'; // this is an import"
    );
    let multi = Comment {
        data: " two\nlines  ".to_owned(),
        ty: CommentType::Multi,
    };
    assert_eq!(
        import(None, "z", Some(multi)).code(),
        "import 'z'; /* two\nlines  */"
    );
}

#[test]
fn comment_code_trims_single_line_only() {
    let single = Comment {
        data: "  a b \t\u{a0}\u{3000} ".to_owned(),
        ty: CommentType::Single,
    };
    assert_eq!(single.code(), "//  a b");
    let blank = Comment {
        data: " \t ".to_owned(),
        ty: CommentType::Single,
    };
    assert_eq!(blank.code(), "//");
    let multi = Comment {
        data: "  a b \t ".to_owned(),
        ty: CommentType::Multi,
    };
    assert_eq!(multi.code(), "/*  a b \t */");
}

#[test]
fn ty_is_category_of_module() {
    assert_eq!(import(Some("x"), "@/x", None).ty(), ImportType::Alias);
    assert_eq!(import(None, "x", None).ty(), ImportType::Module);
}

#[test]
fn clone_keeps_every_field() {
    let full = import(
        Some("x"),
        "abc",
        Some(Comment {
            data: "c".to_owned(),
            ty: CommentType::Multi,
        }),
    );
    assert_eq!(full.clone(), full);
}
