use vstd::prelude::*;

use super::{file_views, ReportTrait};
use crate::file::File;
use crate::text::{decimal, to_decimal};

verus! {

/// The result of a run that fixes. A file is left unchanged where it holds
/// its sorted content already, written anew where it does not, and marked
/// dangerous where it is dangerous and sorting is not forced.
#[derive(Debug)]
pub struct FixReport {
    /// The files that were left as they are, because nothing would change.
    pub unchanged_files: Vec<File>,
    /// The files that are written anew.
    pub sorted_files: Vec<File>,
    /// The files that are dangerous to sort.
    pub dangerous_files: Vec<File>,
}

impl Default for FixReport {
    fn default() -> (r: Self)
        ensures
            r.unchanged_files@.len() == 0,
            r.sorted_files@.len() == 0,
            r.dangerous_files@.len() == 0,
    {
        FixReport {
            unchanged_files: Vec::new(),
            sorted_files: Vec::new(),
            dangerous_files: Vec::new(),
        }
    }
}

impl FixReport {
    /// The line that sums the report up. The number of the dangerous files
    /// is shown in red where there is one.
    pub open spec fn summary(&self) -> Seq<char> {
        decimal(self.count()) + " files checked. "@ + decimal(self.sorted_files@.len())
            + " files sorted. "@ + (if self.has_errors() {
            "\x1b[31m"@
        } else {
            Seq::empty()
        }) + decimal(self.dangerous_files@.len()) + " dangerous files.\x1b[m"@
    }

    /// Writes the line that sums the report up.
    pub fn message(&self) -> (r: String)
        requires
            self.count() <= usize::MAX,
        ensures
            r@ == self.summary(),
    {
        let mut text = to_decimal(self.len());
        text.append(" files checked. ");
        text.append(to_decimal(self.sorted_files.len()).as_str());
        text.append(" files sorted. ");
        if self.err() {
            text.append("\x1b[31m");
        }
        text.append(to_decimal(self.dangerous_files.len()).as_str());
        text.append(" dangerous files.\x1b[m");
        proof {
            assert(text@ =~= self.summary());
        }
        text
    }
}

impl ReportTrait for FixReport {
    open spec fn count(&self) -> nat {
        self.sorted_files@.len() + self.unchanged_files@.len() + self.dangerous_files@.len()
    }

    open spec fn files(&self) -> Seq<Seq<char>> {
        file_views(self.sorted_files@) + file_views(self.unchanged_files@) + file_views(
            self.dangerous_files@,
        )
    }

    open spec fn has_errors(&self) -> bool {
        self.dangerous_files@.len() > 0
    }

    fn len(&self) -> (n: usize) {
        self.sorted_files.len() + self.unchanged_files.len() + self.dangerous_files.len()
    }

    fn all(&self) -> (r: Vec<File>) {
        let mut res: Vec<File> = Vec::new();
        super::append_files(&mut res, &self.sorted_files);
        super::append_files(&mut res, &self.unchanged_files);
        super::append_files(&mut res, &self.dangerous_files);
        proof {
            assert(file_views(res@) =~= self.files());
        }
        res
    }

    fn err(&self) -> (r: bool) {
        self.dangerous_files.len() > 0
    }
}

} // verus!
