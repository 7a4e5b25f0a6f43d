//! What a run is asked to do.

use vstd::prelude::*;

use crate::text::{slice_string, to_chars};

verus! {

/// The settings of a run.
#[derive(Debug)]
pub struct Config {
    /// The path under which files are looked for.
    pub path: String,
    /// Whether the order of the imports is only checked.
    pub check: bool,
    /// The globs that a file must match.
    pub globs: Vec<String>,
    /// Whether the files are only listed.
    pub list: bool,
    /// Whether dangerous files are sorted too.
    pub force: bool,
    /// Whether only the version is shown.
    pub version: bool,
}

/// The texts of a list of strings.
pub open spec fn string_views(list: Seq<String>) -> Seq<Seq<char>> {
    Seq::new(list.len(), |k: int| list[k]@)
}

/// The globs of JavaScript and TypeScript files.
pub open spec fn default_globs() -> Seq<Seq<char>> {
    seq!["**.js"@, "**.jsx"@, "**.ts"@, "**.tsx"@]
}

/// The pieces of `s` between its commas. A text without a comma is one
/// piece, the empty text too.
pub open spec fn split_commas(s: Seq<char>) -> Seq<Seq<char>>
    decreases s.len(),
{
    if s.len() == 0 {
        seq![Seq::<char>::empty()]
    } else {
        let before = split_commas(s.drop_last());
        if s.last() == ',' {
            before.push(Seq::<char>::empty())
        } else {
            before.drop_last().push(before.last().push(s.last()))
        }
    }
}

impl Default for Config {
    fn default() -> (r: Self)
        ensures
            r.path@ == "."@,
            !r.check,
            string_views(r.globs@) == default_globs(),
            !r.list,
            !r.force,
            !r.version,
    {
        Config {
            path: String::from_str("."),
            check: false,
            globs: globs_default(),
            list: false,
            force: false,
            version: false,
        }
    }
}

impl Clone for Config {
    fn clone(&self) -> (r: Self)
        ensures
            r.path@ == self.path@,
            r.check == self.check,
            string_views(r.globs@) == string_views(self.globs@),
            r.list == self.list,
            r.force == self.force,
            r.version == self.version,
    {
        let mut globs: Vec<String> = Vec::new();
        let mut k: usize = 0;
        while k < self.globs.len()
            invariant
                k <= self.globs.len(),
                globs.len() == k,
                forall|j: int| 0 <= j < k ==> globs@[j]@ == self.globs@[j]@,
            decreases self.globs.len() - k,
        {
            globs.push(self.globs[k].clone());
            k += 1;
        }
        proof {
            assert(string_views(globs@) =~= string_views(self.globs@));
        }
        Config {
            path: self.path.clone(),
            check: self.check,
            globs,
            list: self.list,
            force: self.force,
            version: self.version,
        }
    }
}

/// Returns the globs of JavaScript and TypeScript files.
pub fn globs_default() -> (r: Vec<String>)
    ensures
        string_views(r@) == default_globs(),
{
    let mut globs: Vec<String> = Vec::new();
    globs.push(String::from_str("**.js"));
    globs.push(String::from_str("**.jsx"));
    globs.push(String::from_str("**.ts"));
    globs.push(String::from_str("**.tsx"));
    proof {
        assert(string_views(globs@) =~= default_globs());
    }
    globs
}

/// Reads a list of globs that commas part.
pub fn from_str_globs(value: &str) -> (r: Result<Vec<String>, String>)
    ensures
        r matches Ok(globs) && string_views(globs@) == split_commas(value@),
{
    let chars = to_chars(value);
    let mut globs: Vec<String> = Vec::new();
    let mut start: usize = 0;
    let mut k: usize = 0;
    proof {
        assert(chars@.take(0) =~= Seq::<char>::empty());
        assert(string_views(globs@).push(chars@.subrange(0, 0)) =~= split_commas(chars@.take(0)));
    }
    while k < chars.len()
        invariant
            chars@ == value@,
            start <= k <= chars.len(),
            string_views(globs@).push(chars@.subrange(start as int, k as int)) == split_commas(
                chars@.take(k as int),
            ),
        decreases chars.len() - k,
    {
        let ghost done = string_views(globs@);
        let ghost piece = chars@.subrange(start as int, k as int);
        proof {
            let next = chars@.take(k + 1);
            assert(next.drop_last() =~= chars@.take(k as int));
            assert(next.last() == chars@[k as int]);
            assert(done.push(piece).drop_last() =~= done);
            assert(done.push(piece).last() == piece);
        }
        if chars[k] == ',' {
            globs.push(slice_string(value, start, k));
            start = k + 1;
            proof {
                assert(string_views(globs@) =~= done.push(piece));
                assert(chars@.subrange(start as int, k + 1) =~= Seq::<char>::empty());
            }
        } else {
            proof {
                assert(chars@.subrange(start as int, k + 1) =~= piece.push(chars@[k as int]));
            }
        }
        k += 1;
    }
    let ghost done = string_views(globs@);
    globs.push(slice_string(value, start, k));
    proof {
        assert(chars@.take(k as int) =~= chars@);
        assert(string_views(globs@) =~= done.push(chars@.subrange(start as int, k as int)));
    }
    Ok(globs)
}

} // verus!
