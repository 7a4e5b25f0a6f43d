use jisort::file::{File, FileData};
use jisort::statements::{Comment, CommentType, ImportStatement};

fn file() -> File {
    File::new("index.js".to_owned())
}

fn fix(text: &str) -> String {
    let file = file();
    let data = file.parse(text);
    file.fix(&data)
}

fn import(identifiers: Option<&str>, module: &str) -> ImportStatement {
    ImportStatement {
        identifiers: identifiers.map(|id| id.to_owned()),
        module: module.to_owned(),
        comment: None,
    }
}

fn single(data: &str) -> Comment {
    Comment {
        data: data.to_owned(),
        ty: CommentType::Single,
    }
}

fn modules(data: &FileData) -> Vec<String> {
    data.imports.iter().map(|i| i.module.clone()).collect()
}

#[test]
fn path_is_kept() {
    assert_eq!(file().path(), "index.js");
    assert_eq!(file().clone().path(), "index.js");
}

#[test]
fn parse_reads_imports_comments_and_rest() {
    let text = "// header\n\nimport b from 'b';\n  \n/* note */\nimport 'a';\r\n// last\nconst x = 1;\nimport c from 'c';\n";
    let data = file().parse(text);

    assert_eq!(data.imports, vec![import(Some("b"), "b"), import(None, "a")]);
    assert_eq!(data.statements.len(), 3);
    assert_eq!(data.statements.get(&0), Some(&vec![single(" header")]));
    assert_eq!(
        data.statements.get(&1),
        Some(&vec![Comment {
            data: " note ".to_owned(),
            ty: CommentType::Multi
        }])
    );
    assert_eq!(data.statements.get(&2), Some(&vec![single(" last")]));
    assert_eq!(data.rest, "const x = 1;\nimport c from 'c';\n");
}

#[test]
fn parse_keeps_unknown_text_as_rest() {
    let text = "'use strict';\nimport a from 'a';\n";
    let data = file().parse(text);
    assert!(data.imports.is_empty());
    assert!(data.statements.is_empty());
    assert_eq!(data.rest, text);

    let data = file().parse("");
    assert!(data.imports.is_empty());
    assert!(data.statements.is_empty());
    assert_eq!(data.rest, "");

    let data = file().parse("import a from 'a'; const x = 1;");
    assert_eq!(data.imports, vec![import(Some("a"), "a")]);
    assert_eq!(data.rest, " const x = 1;");
}

#[test]
fn parse_puts_comments_of_one_place_in_order() {
    let data = file().parse("// a\n// b\nimport 'x';\n// c\n/* d */\n");
    assert_eq!(data.statements.get(&0), Some(&vec![single(" a"), single(" b")]));
    assert_eq!(
        data.statements.get(&1),
        Some(&vec![
            single(" c"),
            Comment {
                data: " d ".to_owned(),
                ty: CommentType::Multi
            }
        ])
    );
    assert_eq!(data.rest, "");
}

#[test]
fn unsorted_modules_are_reported_and_fixed() {
    let text = "import 'zeta';\nimport 'alpha';\n";
    let file = file();
    let data = file.parse(text);
    assert_eq!(modules(&data), ["zeta", "alpha"]);
    assert!(!file.check(&data));

    let fixed = file.fix(&data);
    assert_eq!(fixed, "import 'alpha';\nimport 'zeta';\n");
    let again = file.parse(&fixed);
    assert_eq!(modules(&again), ["alpha", "zeta"]);
    assert!(file.check(&again));
}

#[test]
fn comment_between_imports_is_dangerous() {
    let data = file().parse("import a from 'a';\n// note\nimport b from 'b';");
    assert_eq!(data.statements.get(&1), Some(&vec![single(" note")]));
    assert_eq!(data.imports.len(), 2);
    assert!(data.is_dangerous());
}

#[test]
fn comment_before_imports_is_not_dangerous() {
    let data = file().parse("// header\nimport a from 'a';");
    assert_eq!(data.statements.get(&0), Some(&vec![single(" header")]));
    assert_eq!(data.imports.len(), 1);
    assert!(!data.is_dangerous());
}

#[test]
fn one_blank_line_between_categories() {
    let fixed = fix("import x from './x';\nimport _ from 'lodash';\n");
    assert_eq!(fixed, "import _ from 'lodash';\n\nimport x from './x';\n");
}

#[test]
fn fix_groups_by_category() {
    let fixed = fix(
        "import React from 'react';\nimport './style.css';\nimport util from './util';",
    );
    assert_eq!(
        fixed,
        "import React from 'react';\n\nimport util from './util';\n\nimport './style.css';\n"
    );
}

#[test]
fn fix_writes_every_category_in_order() {
    let fixed = fix(
        "import './a.css';\nimport b from './b';\nimport c from '@/c';\nimport d from 'd';\nimport e from '@e/e';\nimport f from 'react';\nimport g from 'g';\n\n\nexport default f;\n",
    );
    assert_eq!(
        fixed,
        "import f from 'react';\n\nimport e from '@e/e';\n\nimport d from 'd';\nimport g from 'g';\n\nimport c from '@/c';\n\nimport b from './b';\n\nimport './a.css';\n\nexport default f;\n"
    );
}

#[test]
fn fix_keeps_comments_at_their_index() {
    let fixed = fix("// header\nimport z from 'z';\nimport a from 'a';\n// last\nrest();\n");
    assert_eq!(
        fixed,
        "// header\nimport a from 'a';\nimport z from 'z';\n\n// last\nrest();\n"
    );

    let forced = fix("import z from './z';\n/* why */ \nimport a from 'a'; // one  \n");
    assert_eq!(forced, "/* why */\nimport a from 'a'; // one\n\nimport z from './z';\n");
}

#[test]
fn fix_writes_a_comment_before_the_import_it_stood_before() {
    let fixed = fix("import b from 'b';\n// note\nimport a from 'a';");
    assert_eq!(fixed, "// note\nimport a from 'a';\nimport b from 'b';\n");

    let fixed = fix("import c from 'c';\n// b\nimport b from './b';\n/* a */\n// a\nimport a from 'a';\n");
    assert_eq!(
        fixed,
        "/* a */\n// a\nimport a from 'a';\nimport c from 'c';\n\n// b\nimport b from './b';\n"
    );
}

#[test]
fn fix_keeps_leading_comments_in_front() {
    let fixed = fix("// header\nimport z from './z';\n// a\nimport a from 'a';\n");
    assert_eq!(fixed, "// header\n// a\nimport a from 'a';\n\nimport z from './z';\n");

    let fixed = fix("/* licence */\nimport b from 'b';\nimport a from 'a';\n");
    assert_eq!(fixed, "/* licence */\nimport a from 'a';\nimport b from 'b';\n");
}

#[test]
fn fix_without_imports_adds_no_blank_line() {
    assert_eq!(fix("const x = 1;\n"), "const x = 1;\n");
    assert_eq!(fix(""), "");
    assert_eq!(fix("\n\n  \nconst x = 1;\n"), "const x = 1;\n");
    assert_eq!(fix("  // only\n/* these */rest"), "// only\n/* these */\nrest");
}

#[test]
fn fix_parts_imports_from_rest_by_one_blank_line() {
    assert_eq!(fix("import 'a'\nrest"), "import 'a';\n\nrest");
    assert_eq!(fix("import 'a';\n\n\n\nrest"), "import 'a';\n\nrest");
    assert_eq!(fix("import \"a\""), "import 'a';\n");
    assert_eq!(fix("import 'a';\n// c"), "import 'a';\n\n// c\n");
}

#[test]
fn fix_keeps_order_of_equal_modules() {
    let fixed = fix("import b from 'm';\nimport z from 'z';\nimport a from 'm';\nimport 'm';\n");
    assert_eq!(
        fixed,
        "import b from 'm';\nimport a from 'm';\nimport 'm';\nimport z from 'z';\n"
    );
}

#[test]
fn fix_is_the_same_twice() {
    let texts = [
        "import 'zeta';\nimport 'alpha';\n",
        "// header\nimport z from 'z';\nimport a from './a';\n// last\nrest();\n",
        "import z from './z';\n/* why */ \nimport a from 'a'; // one  \nconst x = 1;",
        "// header\nimport c from 'c';\n// b\nimport b from './b';\n/* a */\nimport a from 'a';\n",
        "import React from 'react';\nimport './style.css';\nimport util from './util';",
        "/* a\n b */\n\nimport { x, y } from \"@/x\"\nimport * as z from '@z/z' /* c */\n\n\nfoo();",
        "nothing to see",
        "",
    ];
    for text in texts {
        let once = fix(text);
        let twice = fix(&once);
        assert_eq!(twice, once);
    }
}

#[test]
fn fix_is_not_the_same_twice_where_names_read_as_a_string() {
    let once = fix("import \n'a' from 'b'");
    assert_eq!(once, "import 'a' from 'b';\n");
    let twice = fix(&once);
    assert_eq!(twice, "import 'a';\n\n from 'b';\n");
}

#[test]
fn fix_is_not_the_same_twice_where_a_comment_is_blank() {
    let once = fix("import 'a'; //  \nimport 'b';\n");
    assert_eq!(once, "import 'a'; //\nimport 'b';\n");
    let twice = fix(&once);
    assert_eq!(twice, "import 'a';\n\n //\nimport 'b';\n");
}

#[test]
fn fix_loses_an_import_without_names() {
    let file = file();
    let data = file.parse("import \nfrom 'a';\n");
    assert_eq!(data.imports.len(), 1);
    let once = file.fix(&data);
    assert_eq!(once, "import  from 'a';\n");
    let again = file.parse(&once);
    assert!(again.imports.is_empty());
    assert_eq!(again.rest, once);
}

#[test]
fn fix_then_parse_gives_sorted_imports() {
    let file = file();
    let data = file.parse("// h\nimport z from 'z';\nimport 'b.css';\nimport a from 'a';\nrest");
    assert!(!data.is_dangerous());
    let again = file.parse(&file.fix(&data));
    assert_eq!(
        again.imports,
        vec![import(Some("a"), "a"), import(Some("z"), "z"), import(None, "b.css")]
    );
    assert_eq!(again.rest, data.rest);
    assert!(file.check(&again));
}

#[test]
fn check_compares_whole_imports() {
    let file = file();
    assert!(file.check(&file.parse("")));
    assert!(file.check(&file.parse("import 'a';\nimport x from 'a';\nimport 'b';\n")));
    assert!(!file.check(&file.parse("import 'b';\nimport 'a';\n")));
    assert!(!file.check(&file.parse("import a from './a';\nimport b from 'b';\n")));
    assert!(file.check(&file.parse("import b from 'b';\n// c\nimport a from './a';\n")));
}
