use vstd::prelude::*;

use super::{follows, lemma_skip_blanks, skip_blanks, Matched, NoMatch};
use crate::text::{run_end, to_chars, CharClass};

verus! {

/// A blank line: spaces and tabs, then a line feed, or a carriage return and
/// a line feed.
pub open spec fn match_empty_line(s: Seq<char>) -> Option<Matched<()>> {
    let t = skip_blanks(s);
    if t.len() >= 1 && t[0] == '\n' {
        Some(Matched { rest: t.skip(1), value: () })
    } else if t.len() >= 2 && t[0] == '\r' && t[1] == '\n' {
        Some(Matched { rest: t.skip(2), value: () })
    } else {
        None
    }
}

/// A blank line that is matched is taken off the start of `s`.
pub proof fn lemma_empty_line_advances(s: Seq<char>)
    ensures
        match_empty_line(s) matches Some(m) ==> follows(m.rest, s),
{
    lemma_skip_blanks(s);
    let t = skip_blanks(s);
    if let Some(m) = match_empty_line(s) {
        let n = s.len() - t.len();
        if t[0] == '\n' {
            assert(t.skip(1) =~= s.skip(n + 1));
        } else {
            assert(t.skip(2) =~= s.skip(n + 2));
        }
    }
}

/// Matches a blank line at `pos`, and gives the position after it.
pub fn empty_line_at(chars: &Vec<char>, pos: usize) -> (r: Option<usize>)
    requires
        pos <= chars.len(),
    ensures
        match r {
            Some(end) => {
                &&& pos < end <= chars.len()
                &&& match_empty_line(chars@.skip(pos as int)) == Some(
                    Matched { rest: chars@.skip(end as int), value: () },
                )
            },
            None => match_empty_line(chars@.skip(pos as int)) is None,
        },
{
    let at = run_end(chars, pos, chars.len(), CharClass::Blank);
    let ghost t = skip_blanks(chars@.skip(pos as int));
    proof {
        assert(t =~= chars@.skip(at as int));
    }
    if at < chars.len() && chars[at] == '\n' {
        proof {
            assert(t.skip(1) =~= chars@.skip(at + 1));
        }
        Some(at + 1)
    } else if at < chars.len() && chars.len() - at >= 2 && chars[at] == '\r' && chars[at + 1] == '\n' {
        proof {
            assert(t.skip(2) =~= chars@.skip(at + 2));
        }
        Some(at + 2)
    } else {
        None
    }
}

/// Matches a blank line at the start of `input`.
pub fn empty_line(input: &str) -> (r: Result<(&str, ()), NoMatch>)
    ensures
        match r {
            Ok((rest, _)) => match_empty_line(input@) == Some(Matched { rest: rest@, value: () }),
            Err(_) => match_empty_line(input@) is None,
        },
{
    let chars = to_chars(input);
    proof {
        assert(chars@.skip(0) =~= input@);
    }
    match empty_line_at(&chars, 0) {
        Some(end) => Ok((input.substring_char(end, chars.len()), ())),
        None => Err(NoMatch),
    }
}

} // verus!
