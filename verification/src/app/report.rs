//! Reports: what a run did to the files that it was given.

pub mod check_report;
pub mod fix_report;

pub use check_report::CheckReport;
pub use fix_report::FixReport;

use vstd::prelude::*;

use crate::file::File;

verus! {

/// The paths of a list of files.
pub open spec fn file_views(list: Seq<File>) -> Seq<Seq<char>> {
    Seq::new(list.len(), |k: int| list[k]@)
}

/// Writes copies of the files of `list` behind `files`.
pub fn append_files(files: &mut Vec<File>, list: &Vec<File>)
    ensures
        file_views(final(files)@) == file_views(old(files)@) + file_views(list@),
{
    let mut k: usize = 0;
    proof {
        assert(file_views(files@) =~= file_views(old(files)@) + file_views(list@.take(0)));
    }
    while k < list.len()
        invariant
            k <= list.len(),
            file_views(files@) == file_views(old(files)@) + file_views(list@.take(k as int)),
        decreases list.len() - k,
    {
        let ghost before = file_views(files@);
        files.push(list[k].clone());
        proof {
            assert(file_views(files@) =~= before.push(list@[k as int]@));
            assert(file_views(list@.take(k + 1)) =~= file_views(list@.take(k as int)).push(
                list@[k as int]@,
            ));
        }
        k += 1;
    }
    proof {
        assert(list@.take(k as int) =~= list@);
    }
}

/// What every report tells.
pub trait ReportTrait {
    /// The number of the files of the report.
    spec fn count(&self) -> nat;

    /// The paths of the files of the report.
    spec fn files(&self) -> Seq<Seq<char>>;

    /// Whether the report holds a file that is not as it should be.
    spec fn has_errors(&self) -> bool;

    /// The number of the files that were looked at.
    fn len(&self) -> (n: usize)
        requires
            self.count() <= usize::MAX,
        ensures
            n == self.count(),
    ;

    /// Whether no file was looked at.
    fn is_empty(&self) -> (r: bool)
        requires
            self.count() <= usize::MAX,
        ensures
            r == (self.count() == 0),
    {
        self.len() == 0
    }

    /// Every file that was looked at.
    fn all(&self) -> (r: Vec<File>)
        ensures
            file_views(r@) == self.files(),
    ;

    /// Whether every file is as it should be.
    fn ok(&self) -> (r: bool)
        ensures
            r == !self.has_errors(),
    {
        !self.err()
    }

    /// Whether a file is not as it should be. This is no failure of the
    /// run: it is what a check is there to find.
    fn err(&self) -> (r: bool)
        ensures
            r == self.has_errors(),
    ;
}

/// Any of the reports that a run can give.
#[derive(Debug)]
pub enum Report {
    /// The report of a run that fixes.
    Fix(FixReport),
    /// The report of a run that checks.
    Check(CheckReport),
}

impl Report {
    /// The line that sums the report up.
    pub open spec fn summary(&self) -> Seq<char> {
        match self {
            Report::Fix(report) => report.summary(),
            Report::Check(report) => report.summary(),
        }
    }

    /// Writes the line that sums the report up.
    pub fn message(&self) -> (r: String)
        requires
            self.count() <= usize::MAX,
        ensures
            r@ == self.summary(),
    {
        match self {
            Report::Fix(report) => report.message(),
            Report::Check(report) => report.message(),
        }
    }

    /// Whether the run that gave the report has failed: a check fails where
    /// it finds a file that is not sorted; a fix does not fail.
    pub fn is_failure(&self) -> (r: bool)
        ensures
            r == (self matches Report::Check(report) && report.has_errors()),
    {
        match self {
            Report::Fix(_) => false,
            Report::Check(report) => report.err(),
        }
    }
}

impl ReportTrait for Report {
    open spec fn count(&self) -> nat {
        match self {
            Report::Fix(report) => report.count(),
            Report::Check(report) => report.count(),
        }
    }

    open spec fn files(&self) -> Seq<Seq<char>> {
        match self {
            Report::Fix(report) => report.files(),
            Report::Check(report) => report.files(),
        }
    }

    open spec fn has_errors(&self) -> bool {
        match self {
            Report::Fix(report) => report.has_errors(),
            Report::Check(report) => report.has_errors(),
        }
    }

    fn len(&self) -> (n: usize) {
        match self {
            Report::Fix(report) => report.len(),
            Report::Check(report) => report.len(),
        }
    }

    fn all(&self) -> (r: Vec<File>) {
        match self {
            Report::Fix(report) => report.all(),
            Report::Check(report) => report.all(),
        }
    }

    fn err(&self) -> (r: bool) {
        match self {
            Report::Fix(report) => report.err(),
            Report::Check(report) => report.err(),
        }
    }
}

} // verus!
