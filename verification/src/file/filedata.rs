use std::collections::HashMap;
use vstd::prelude::*;

use crate::statements::comment::{comment_views, Comment, CommentView};
use crate::statements::imports::import_statement::{import_views, ImportStatement, ImportView};

verus! {

broadcast use vstd::std_specs::hash::group_hash_axioms;

/// What the head of a file holds, as a mathematical value.
pub struct FileDataView {
    /// The import statements, in the order of the source.
    pub imports: Seq<ImportView>,
    /// The comments found before the import of each index, and, at the
    /// number of the imports, those found after the last import.
    pub interleaved: Map<int, Seq<CommentView>>,
    /// The text from the first position that no matcher recognises.
    pub rest: Seq<char>,
}

impl FileDataView {
    /// The data of a text in which nothing has been read yet.
    pub open spec fn empty() -> Self {
        FileDataView { imports: Seq::empty(), interleaved: Map::empty(), rest: Seq::empty() }
    }

    /// The comments recorded at `index`; none where nothing is recorded.
    pub open spec fn comments_at(self, index: int) -> Seq<CommentView> {
        if self.interleaved.dom().contains(index) {
            self.interleaved[index]
        } else {
            Seq::empty()
        }
    }

    /// The data after one more import was read.
    pub open spec fn with_import(self, import: ImportView) -> Self {
        FileDataView { imports: self.imports.push(import), ..self }
    }

    /// The data after one more comment was read: it is recorded at the
    /// number of the imports read so far, behind the comments that are there.
    pub open spec fn with_comment(self, comment: CommentView) -> Self {
        let index = self.imports.len() as int;
        FileDataView {
            interleaved: self.interleaved.insert(index, self.comments_at(index).push(comment)),
            ..self
        }
    }

    /// The data with `rest` as the text that was not read.
    pub open spec fn with_rest(self, rest: Seq<char>) -> Self {
        FileDataView { rest, ..self }
    }

    /// Whether a comment is recorded between two imports: at an index above 0
    /// and below the number of the imports.
    pub open spec fn is_dangerous(self) -> bool {
        exists|k: int| 0 < k < self.imports.len() && (#[trigger] self.comments_at(k)).len() > 0
    }
}

/// The data that results from reading the head of a file.
pub struct FileData {
    pub imports: Vec<ImportStatement>,
    pub statements: HashMap<usize, Vec<Comment>>,
    pub rest: String,
}

impl View for FileData {
    type V = FileDataView;

    open spec fn view(&self) -> FileDataView {
        FileDataView {
            imports: import_views(self.imports@),
            interleaved: Map::new(
                |k: int| 0 <= k <= usize::MAX && self.statements@.dom().contains(k as usize),
                |k: int| comment_views(self.statements@[k as usize]@),
            ),
            rest: self.rest@,
        }
    }
}

impl FileData {
    /// The data of a file in which nothing has been read yet.
    pub fn new() -> (r: Self)
        ensures
            r@ == FileDataView::empty(),
    {
        let r = FileData { imports: Vec::new(), statements: HashMap::new(), rest: String::new() };
        proof {
            assert(r@.imports =~= Seq::empty());
            assert(r@.interleaved =~= Map::empty());
        }
        r
    }

    /// Records `import` behind the imports read so far.
    pub fn push_import(&mut self, import: ImportStatement)
        ensures
            final(self)@ == old(self)@.with_import(import@),
    {
        let ghost before = import_views(self.imports@);
        self.imports.push(import);
        proof {
            assert(import_views(self.imports@) =~= before.push(import@));
            assert(self@.interleaved =~= old(self)@.interleaved);
        }
    }

    /// The comments recorded at `index`, if any are.
    pub fn comments(&self, index: usize) -> (r: Option<&Vec<Comment>>)
        ensures
            match r {
                Some(list) => comment_views(list@) == self@.comments_at(index as int)
                    && list.len() > 0,
                None => self@.comments_at(index as int).len() == 0,
            },
    {
        match self.statements.get(&index) {
            Some(list) => {
                if list.len() > 0 {
                    Some(list)
                } else {
                    None
                }
            },
            None => None,
        }
    }

    /// Records `comment` at the number of the imports read so far.
    pub fn push_comment(&mut self, comment: Comment)
        ensures
            final(self)@ == old(self)@.with_comment(comment@),
    {
        let index = self.imports.len();
        let ghost before = self.statements@;
        let mut list = match self.statements.remove(&index) {
            Some(list) => list,
            None => Vec::new(),
        };
        let ghost earlier = list@;
        proof {
            assert(comment_views(earlier) =~= old(self)@.comments_at(index as int));
        }
        list.push(comment);
        proof {
            assert(comment_views(list@) =~= comment_views(earlier).push(comment@));
        }
        self.statements.insert(index, list);
        proof {
            let after = self.statements@;
            let expected = old(self)@.with_comment(comment@).interleaved;
            assert(after =~= before.insert(index, list));
            assert(import_views(self.imports@).len() == index);
            assert forall|k: int| self@.interleaved.dom().contains(k) == expected.dom().contains(
                k,
            ) by {
                if 0 <= k <= usize::MAX {
                    assert(after.dom().contains(k as usize) == (k == index
                        || before.dom().contains(k as usize)));
                }
            }
            assert forall|k: int| self@.interleaved.dom().contains(k) implies self@.interleaved[k]
                == expected[k] by {
                if k != index {
                    assert(after[k as usize] == before[k as usize]);
                }
            }
            assert(self@.interleaved =~= expected);
        }
    }

    /// Tells whether the file is dangerous to write anew: it is where a
    /// comment stands between two imports. Such a comment is moved with the
    /// import that follows it, away from the import that it stood behind.
    pub fn is_dangerous(&self) -> (r: bool)
        ensures
            r == self@.is_dangerous(),
    {
        let mut k: usize = 1;
        while k < self.imports.len()
            invariant
                1 <= k,
                forall|j: int| 0 < j < k && j < self.imports.len() ==> (
                #[trigger] self@.comments_at(j)).len() == 0,
            decreases self.imports.len() - k,
        {
            if self.comments(k).is_some() {
                return true;
            }
            k += 1;
        }
        false
    }
}

} // verus!
