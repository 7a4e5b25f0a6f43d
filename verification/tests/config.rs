use jisort::config::{from_str_globs, globs_default};
use jisort::Config;

#[test]
fn default_globs_are_script_files() {
    assert_eq!(globs_default(), ["**.js", "**.jsx", "**.ts", "**.tsx"]);
}

#[test]
fn default_config() {
    let config = Config::default();
    assert_eq!(config.path, ".");
    assert!(!config.check);
    assert_eq!(config.globs, globs_default());
    assert!(!config.list);
    assert!(!config.force);
    assert!(!config.version);
}

#[test]
fn clone_keeps_every_setting() {
    let config = Config {
        path: "src".to_owned(),
        check: true,
        globs: vec!["a".to_owned(), "b".to_owned()],
        list: false,
        force: true,
        version: false,
    };
    let copy = config.clone();
    assert_eq!(copy.path, "src");
    assert!(copy.check);
    assert_eq!(copy.globs, ["a", "b"]);
    assert!(!copy.list);
    assert!(copy.force);
    assert!(!copy.version);
}

#[test]
fn globs_are_parted_by_commas() {
    let cases = ["", ",", "a", "**.js,**.ts", "a,,b,", ",é ,ü", "no comma here"];
    for case in cases {
        let expected: Vec<String> = case.split(',').map(String::from).collect();
        assert_eq!(from_str_globs(case), Ok(expected));
    }
    assert_eq!(
        from_str_globs("a,,b,"),
        Ok(vec!["a".to_owned(), String::new(), "b".to_owned(), String::new()])
    );
}
