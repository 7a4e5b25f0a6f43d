use jisort::app::report::{CheckReport, FixReport, Report, ReportTrait};
use jisort::app::{App, Source};
use jisort::file::File;
use jisort::Config;

fn source(path: &str, text: &str) -> Source {
    Source {
        file: File::new(path.to_owned()),
        text: text.to_owned(),
    }
}

fn paths(files: &[File]) -> Vec<String> {
    files.iter().map(|f| f.path().clone()).collect()
}

fn sources() -> Vec<Source> {
    vec![
        source("sorted.js", "import 'a';\nimport 'b';\n"),
        source("unsorted.js", "import 'b';\nimport 'a';\n"),
        source("danger.js", "import 'b';\n// c\nimport 'a';\n"),
        source("loose.js", "import \"a\"\nfoo();"),
        source("plain.js", "foo();\n"),
    ]
}

fn config(check: bool, force: bool) -> Config {
    Config {
        check,
        force,
        ..Config::default()
    }
}

#[test]
fn check_sorts_files_into_two_lists() {
    let report = App::new(config(true, false)).check(&sources());
    assert_eq!(paths(&report.ok_files), ["sorted.js", "loose.js", "plain.js"]);
    assert_eq!(paths(&report.errored_files), ["unsorted.js", "danger.js"]);
    assert_eq!(report.len(), 5);
    assert!(report.err());
    assert!(!report.ok());
    assert!(!report.is_empty());
    assert_eq!(
        paths(&report.all()),
        ["sorted.js", "loose.js", "plain.js", "unsorted.js", "danger.js"]
    );
}

#[test]
fn fix_leaves_dangerous_files_alone() {
    let (report, contents) = App::new(config(false, false)).fix(&sources());
    assert_eq!(paths(&report.unchanged_files), ["sorted.js", "plain.js"]);
    assert_eq!(paths(&report.sorted_files), ["unsorted.js", "loose.js"]);
    assert_eq!(paths(&report.dangerous_files), ["danger.js"]);
    assert_eq!(contents, ["import 'a';\nimport 'b';\n", "import 'a';\n\nfoo();"]);
    assert!(report.err());
    assert_eq!(report.len(), 5);
    assert_eq!(
        paths(&report.all()),
        ["unsorted.js", "loose.js", "sorted.js", "plain.js", "danger.js"]
    );
}

#[test]
fn fix_sorts_dangerous_files_when_forced() {
    let (report, contents) = App::new(config(false, true)).fix(&sources());
    assert_eq!(paths(&report.unchanged_files), ["sorted.js", "plain.js"]);
    assert_eq!(paths(&report.sorted_files), ["unsorted.js", "danger.js", "loose.js"]);
    assert!(report.dangerous_files.is_empty());
    assert_eq!(
        contents,
        [
            "import 'a';\nimport 'b';\n",
            "// c\nimport 'a';\nimport 'b';\n",
            "import 'a';\n\nfoo();"
        ]
    );
    assert!(report.ok());
}

#[test]
fn second_fix_changes_nothing() {
    let app = App::new(config(false, true));
    let first = sources();
    let (report, contents) = app.fix(&first);
    let second: Vec<Source> = report
        .sorted_files
        .iter()
        .zip(contents.iter())
        .map(|(file, content)| source(file.path(), content))
        .collect();
    let (report, contents) = app.fix(&second);
    assert_eq!(paths(&report.unchanged_files), ["unsorted.js", "danger.js", "loose.js"]);
    assert!(report.sorted_files.is_empty());
    assert!(report.dangerous_files.is_empty());
    assert!(contents.is_empty());
}

#[test]
fn run_checks_or_fixes() {
    let (report, contents) = App::new(config(true, true)).run(&sources());
    assert!(contents.is_empty());
    match &report {
        Report::Check(check) => assert_eq!(check.errored_files.len(), 2),
        Report::Fix(_) => panic!("a check was asked for"),
    }
    assert_eq!(
        report.message(),
        "5 files checked. 3 files ok. \x1b[31m2 files badly sorted.\x1b[m"
    );
    assert_eq!(report.len(), 5);
    assert!(report.err());
    assert!(report.is_failure());
    assert_eq!(report.all().len(), 5);

    let (report, contents) = App::new(config(false, false)).run(&sources());
    assert_eq!(contents.len(), 2);
    match &report {
        Report::Fix(fix) => assert_eq!(fix.sorted_files.len(), 2),
        Report::Check(_) => panic!("a fix was asked for"),
    }
    assert_eq!(
        report.message(),
        "5 files checked. 2 files sorted. \x1b[31m1 dangerous files.\x1b[m"
    );
    assert!(report.err());
    assert!(!report.is_failure());
    assert!(!Report::Check(CheckReport::default()).is_failure());
}

#[test]
fn empty_reports() {
    let check = CheckReport::default();
    assert!(check.is_empty());
    assert!(check.ok());
    assert_eq!(check.len(), 0);
    assert!(check.all().is_empty());
    assert_eq!(check.message(), "0 files checked. 0 files ok. 0 files badly sorted.\x1b[m");

    let fix = FixReport::default();
    assert!(fix.is_empty());
    assert!(fix.ok());
    assert_eq!(fix.message(), "0 files checked. 0 files sorted. 0 dangerous files.\x1b[m");

    let (report, contents) = App::new(Config::default()).run(&Vec::new());
    assert!(contents.is_empty());
    assert!(report.is_empty());
}

#[test]
fn report_counts_in_decimal() {
    let mut report = CheckReport::default();
    for k in 0..1203 {
        report.ok_files.push(File::new(format!("{}.js", k)));
    }
    assert_eq!(
        report.message(),
        "1203 files checked. 1203 files ok. 0 files badly sorted.\x1b[m"
    );
}
