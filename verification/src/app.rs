//! The run over a set of files: each is read, and then checked or fixed.

pub mod report;

use vstd::prelude::*;

use crate::config::Config;
use crate::file::round_trip::{is_plain, lemma_fix_twice};
use crate::file::{fixed_content, is_sorted, scan, File};
use report::{file_views, CheckReport, FixReport, Report};

verus! {

/// A file and the content that was read from it.
#[derive(Debug)]
pub struct Source {
    pub file: File,
    pub text: String,
}

/// The paths of the files, among the first `count` of `sources`, whose
/// imports are sorted if `sorted` holds, and are not if it does not.
pub open spec fn checked_files(sources: Seq<Source>, count: int, sorted: bool) -> Seq<Seq<char>>
    decreases count,
{
    if count <= 0 {
        Seq::empty()
    } else {
        let before = checked_files(sources, count - 1, sorted);
        let source = sources[count - 1];
        if is_sorted(scan(source.text@)) == sorted {
            before.push(source.file@)
        } else {
            before
        }
    }
}

/// What a run that fixes does to a file.
pub enum Verdict {
    /// The file holds its sorted content already.
    Unchanged,
    /// The file is written anew.
    Sorted,
    /// The file is dangerous to sort, and sorting is not forced.
    Dangerous,
}

/// What a run that fixes does to a file with the content `text`.
pub open spec fn verdict(text: Seq<char>, force: bool) -> Verdict {
    let data = scan(text);
    if data.is_dangerous() && !force {
        Verdict::Dangerous
    } else if fixed_content(data) == text {
        Verdict::Unchanged
    } else {
        Verdict::Sorted
    }
}

/// A run that fixes writes no file anew that a run before it has written
/// anew, where every statement of the file is plain: the file is left
/// unchanged, or left alone as dangerous.
pub proof fn lemma_fixed_file_is_not_written(text: Seq<char>, force: bool)
    requires
        is_plain(scan(text)),
    ensures
        !(verdict(fixed_content(scan(text)), force) is Sorted),
{
    lemma_fix_twice(text);
}

/// The paths of the files, among the first `count` of `sources`, to which a
/// run that fixes does `what`.
pub open spec fn fixed_files(sources: Seq<Source>, count: int, force: bool, what: Verdict) -> Seq<
    Seq<char>,
>
    decreases count,
{
    if count <= 0 {
        Seq::empty()
    } else {
        let before = fixed_files(sources, count - 1, force, what);
        let source = sources[count - 1];
        if verdict(source.text@, force) == what {
            before.push(source.file@)
        } else {
            before
        }
    }
}

/// The new contents of the files, among the first `count` of `sources`, that
/// a run that fixes writes anew.
pub open spec fn new_contents(sources: Seq<Source>, count: int, force: bool) -> Seq<Seq<char>>
    decreases count,
{
    if count <= 0 {
        Seq::empty()
    } else {
        let before = new_contents(sources, count - 1, force);
        let source = sources[count - 1];
        if verdict(source.text@, force) == Verdict::Sorted {
            before.push(fixed_content(scan(source.text@)))
        } else {
            before
        }
    }
}

/// The texts of a list of strings.
pub open spec fn content_views(list: Seq<String>) -> Seq<Seq<char>> {
    Seq::new(list.len(), |k: int| list[k]@)
}

/// Whether `report` is what a check of `sources` gives: each list holds the
/// files that belong there, in the order of `sources`.
pub open spec fn is_check_of(report: CheckReport, sources: Seq<Source>) -> bool {
    &&& file_views(report.ok_files@) == checked_files(sources, sources.len() as int, true)
    &&& file_views(report.errored_files@) == checked_files(sources, sources.len() as int, false)
}

/// Whether `report` and `contents` are what a fix of `sources` gives: each
/// list holds the files that belong there, in the order of `sources`, and
/// `contents` holds the new content of each sorted file.
pub open spec fn is_fix_of(
    report: FixReport,
    contents: Seq<String>,
    sources: Seq<Source>,
    force: bool,
) -> bool {
    let count = sources.len() as int;
    &&& file_views(report.unchanged_files@) == fixed_files(
        sources,
        count,
        force,
        Verdict::Unchanged,
    )
    &&& file_views(report.sorted_files@) == fixed_files(sources, count, force, Verdict::Sorted)
    &&& file_views(report.dangerous_files@) == fixed_files(
        sources,
        count,
        force,
        Verdict::Dangerous,
    )
    &&& content_views(contents) == new_contents(sources, count, force)
}

/// The run: it checks or fixes the files that it is given.
pub struct App {
    config: Config,
}

impl App {
    /// The settings of the run.
    pub closed spec fn settings(&self) -> Config {
        self.config
    }

    /// Whether the run only checks.
    pub open spec fn checks(&self) -> bool {
        self.settings().check
    }

    /// Whether the run sorts dangerous files too.
    pub open spec fn forces(&self) -> bool {
        self.settings().force
    }

    /// A run with the settings of `config`.
    pub fn new(config: Config) -> (r: Self)
        ensures
            r.settings() == config,
    {
        App { config }
    }

    /// The settings of the run.
    pub fn config(&self) -> (r: &Config)
        ensures
            *r == self.settings(),
    {
        &self.config
    }

    /// Checks the files if the settings ask for a check, and fixes them if
    /// they do not. With the report come the new contents of the files that
    /// are to be written anew, in the order of the report's sorted files.
    pub fn run(&mut self, sources: &Vec<Source>) -> (r: (Report, Vec<String>))
        ensures
            final(self).settings() == old(self).settings(),
            match r.0 {
                Report::Check(report) => old(self).checks() && is_check_of(report, sources@)
                    && r.1@.len() == 0,
                Report::Fix(report) => !old(self).checks() && is_fix_of(
                    report,
                    r.1@,
                    sources@,
                    old(self).forces(),
                ),
            },
    {
        if self.config.check {
            (Report::Check(self.check(sources)), Vec::new())
        } else {
            let (report, contents) = self.fix(sources);
            (Report::Fix(report), contents)
        }
    }

    /// Tells of each file whether its imports are sorted.
    pub fn check(&self, sources: &Vec<Source>) -> (report: CheckReport)
        ensures
            is_check_of(report, sources@),
    {
        let mut report = CheckReport::default();
        let mut k: usize = 0;
        proof {
            assert(file_views(report.ok_files@) =~= checked_files(sources@, 0, true));
            assert(file_views(report.errored_files@) =~= checked_files(sources@, 0, false));
        }
        while k < sources.len()
            invariant
                k <= sources.len(),
                file_views(report.ok_files@) == checked_files(sources@, k as int, true),
                file_views(report.errored_files@) == checked_files(sources@, k as int, false),
            decreases sources.len() - k,
        {
            let source = &sources[k];
            let data = source.file.parse(source.text.as_str());
            let ghost ok = file_views(report.ok_files@);
            let ghost errored = file_views(report.errored_files@);
            if source.file.check(&data) {
                report.ok_files.push(source.file.clone());
                proof {
                    assert(file_views(report.ok_files@) =~= ok.push(source.file@));
                }
            } else {
                report.errored_files.push(source.file.clone());
                proof {
                    assert(file_views(report.errored_files@) =~= errored.push(source.file@));
                }
            }
            k += 1;
        }
        report
    }

    /// Sorts the imports of each file. A dangerous file is left alone and
    /// reported, unless the settings force it. With the report come the new
    /// contents of the files that are to be written anew, in the order of
    /// the report's sorted files.
    pub fn fix(&self, sources: &Vec<Source>) -> (r: (FixReport, Vec<String>))
        ensures
            is_fix_of(r.0, r.1@, sources@, self.forces()),
    {
        let force = self.config.force;
        let mut report = FixReport::default();
        let mut contents: Vec<String> = Vec::new();
        let mut k: usize = 0;
        proof {
            assert(file_views(report.unchanged_files@) =~= fixed_files(
                sources@,
                0,
                force,
                Verdict::Unchanged,
            ));
            assert(file_views(report.sorted_files@) =~= fixed_files(
                sources@,
                0,
                force,
                Verdict::Sorted,
            ));
            assert(file_views(report.dangerous_files@) =~= fixed_files(
                sources@,
                0,
                force,
                Verdict::Dangerous,
            ));
            assert(content_views(contents@) =~= new_contents(sources@, 0, force));
        }
        while k < sources.len()
            invariant
                k <= sources.len(),
                force == self.forces(),
                file_views(report.unchanged_files@) == fixed_files(
                    sources@,
                    k as int,
                    force,
                    Verdict::Unchanged,
                ),
                file_views(report.sorted_files@) == fixed_files(
                    sources@,
                    k as int,
                    force,
                    Verdict::Sorted,
                ),
                file_views(report.dangerous_files@) == fixed_files(
                    sources@,
                    k as int,
                    force,
                    Verdict::Dangerous,
                ),
                content_views(contents@) == new_contents(sources@, k as int, force),
            decreases sources.len() - k,
        {
            let source = &sources[k];
            let data = source.file.parse(source.text.as_str());
            let ghost unchanged = file_views(report.unchanged_files@);
            let ghost sorted = file_views(report.sorted_files@);
            let ghost dangerous = file_views(report.dangerous_files@);
            let ghost written = content_views(contents@);
            if !data.is_dangerous() || force {
                let content = source.file.fix(&data);
                if content == source.text {
                    report.unchanged_files.push(source.file.clone());
                    proof {
                        assert(file_views(report.unchanged_files@) =~= unchanged.push(
                            source.file@,
                        ));
                    }
                } else {
                    report.sorted_files.push(source.file.clone());
                    contents.push(content);
                    proof {
                        assert(file_views(report.sorted_files@) =~= sorted.push(source.file@));
                        assert(content_views(contents@) =~= written.push(content@));
                    }
                }
            } else {
                report.dangerous_files.push(source.file.clone());
                proof {
                    assert(file_views(report.dangerous_files@) =~= dangerous.push(source.file@));
                }
            }
            k += 1;
        }
        (report, contents)
    }
}

} // verus!
