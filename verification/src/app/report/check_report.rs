use vstd::prelude::*;

use super::{file_views, ReportTrait};
use crate::file::File;
use crate::text::{decimal, to_decimal};

verus! {

/// The result of a run that checks: a file is sorted, or it is not.
#[derive(Debug)]
pub struct CheckReport {
    /// The files whose imports are sorted.
    pub ok_files: Vec<File>,
    /// The files whose imports are not sorted.
    pub errored_files: Vec<File>,
}

impl Default for CheckReport {
    fn default() -> (r: Self)
        ensures
            r.ok_files@.len() == 0,
            r.errored_files@.len() == 0,
    {
        CheckReport { ok_files: Vec::new(), errored_files: Vec::new() }
    }
}

impl CheckReport {
    /// The line that sums the report up. The number of the unsorted files is
    /// shown in red where there is one.
    pub open spec fn summary(&self) -> Seq<char> {
        decimal(self.count()) + " files checked. "@ + decimal(self.ok_files@.len()) + " files ok. "@
            + (if self.has_errors() {
            "\x1b[31m"@
        } else {
            Seq::empty()
        }) + decimal(self.errored_files@.len()) + " files badly sorted.\x1b[m"@
    }

    /// Writes the line that sums the report up.
    pub fn message(&self) -> (r: String)
        requires
            self.count() <= usize::MAX,
        ensures
            r@ == self.summary(),
    {
        let mut text = to_decimal(self.len());
        text.append(" files checked. ");
        text.append(to_decimal(self.ok_files.len()).as_str());
        text.append(" files ok. ");
        if self.err() {
            text.append("\x1b[31m");
        }
        text.append(to_decimal(self.errored_files.len()).as_str());
        text.append(" files badly sorted.\x1b[m");
        proof {
            assert(text@ =~= self.summary());
        }
        text
    }
}

impl ReportTrait for CheckReport {
    open spec fn count(&self) -> nat {
        self.ok_files@.len() + self.errored_files@.len()
    }

    open spec fn files(&self) -> Seq<Seq<char>> {
        file_views(self.ok_files@) + file_views(self.errored_files@)
    }

    open spec fn has_errors(&self) -> bool {
        self.errored_files@.len() > 0
    }

    fn len(&self) -> (n: usize) {
        self.ok_files.len() + self.errored_files.len()
    }

    fn all(&self) -> (r: Vec<File>) {
        let mut res: Vec<File> = Vec::new();
        super::append_files(&mut res, &self.ok_files);
        super::append_files(&mut res, &self.errored_files);
        proof {
            assert(file_views(res@) =~= self.files());
        }
        res
    }

    fn err(&self) -> (r: bool) {
        self.errored_files.len() > 0
    }
}

} // verus!
