//! Sequences of characters: the classes of characters that the grammar
//! distinguishes, runs of a class at either end of a text, the search for a
//! pattern, and the executable counterparts of each on a decoded text.

use vstd::prelude::*;

verus! {

/// The classes of characters that the matchers tell apart.
#[derive(Clone, Copy, Debug, PartialEq, Eq, Structural)]
pub enum CharClass {
    /// A space or a horizontal tab.
    Blank,
    /// Anything but a line feed or a carriage return.
    LineText,
    /// A character with the Unicode property `White_Space`.
    Whitespace,
}

/// The characters with the Unicode property `White_Space`.
pub open spec fn is_whitespace(c: char) -> bool {
    let n = c as int;
    ||| 0x09 <= n <= 0x0D
    ||| n == 0x20
    ||| n == 0x85
    ||| n == 0xA0
    ||| n == 0x1680
    ||| 0x2000 <= n <= 0x200A
    ||| n == 0x2028
    ||| n == 0x2029
    ||| n == 0x202F
    ||| n == 0x205F
    ||| n == 0x3000
}

impl CharClass {
    /// Whether `c` belongs to the class.
    pub open spec fn holds(self, c: char) -> bool {
        match self {
            CharClass::Blank => c == ' ' || c == '\t',
            CharClass::LineText => c != '\n' && c != '\r',
            CharClass::Whitespace => is_whitespace(c),
        }
    }

    /// Decides membership of `c` in the class.
    pub fn test(self, c: char) -> (r: bool)
        ensures
            r == self.holds(c),
    {
        match self {
            CharClass::Blank => c == ' ' || c == '\t',
            CharClass::LineText => c != '\n' && c != '\r',
            CharClass::Whitespace => {
                let n: u32 = c as u32;
                (0x09 <= n && n <= 0x0D) || n == 0x20 || n == 0x85 || n == 0xA0 || n == 0x1680 || (
                0x2000 <= n && n <= 0x200A) || n == 0x2028 || n == 0x2029 || n == 0x202F || n
                    == 0x205F || n == 0x3000
            },
        }
    }
}

/// The length of the longest prefix of `s` whose characters are all in `class`.
pub open spec fn leading(s: Seq<char>, class: CharClass) -> nat
    decreases s.len(),
{
    if s.len() > 0 && class.holds(s[0]) {
        1 + leading(s.skip(1), class)
    } else {
        0
    }
}

/// The length of the longest suffix of `s` whose characters are all in `class`.
pub open spec fn trailing(s: Seq<char>, class: CharClass) -> nat
    decreases s.len(),
{
    if s.len() > 0 && class.holds(s.last()) {
        1 + trailing(s.drop_last(), class)
    } else {
        0
    }
}

/// `s` without the whitespace at its end.
pub open spec fn trim_end(s: Seq<char>) -> Seq<char> {
    s.take(s.len() - trailing(s, CharClass::Whitespace))
}

/// `s` without the whitespace at its start.
pub open spec fn trim_start(s: Seq<char>) -> Seq<char> {
    s.skip(leading(s, CharClass::Whitespace) as int)
}

/// `s` without the whitespace at either end.
pub open spec fn trim(s: Seq<char>) -> Seq<char> {
    trim_end(trim_start(s))
}

/// The index of the first occurrence of `pattern` in `s`, if there is one.
pub open spec fn find(s: Seq<char>, pattern: Seq<char>) -> Option<int>
    decreases s.len(),
{
    if pattern.is_prefix_of(s) {
        Some(0)
    } else if s.len() == 0 {
        None
    } else {
        match find(s.skip(1), pattern) {
            Some(i) => Some(i + 1),
            None => None,
        }
    }
}

/// The character of a decimal digit.
pub open spec fn digit(d: nat) -> char {
    if d == 0 {
        '0'
    } else if d == 1 {
        '1'
    } else if d == 2 {
        '2'
    } else if d == 3 {
        '3'
    } else if d == 4 {
        '4'
    } else if d == 5 {
        '5'
    } else if d == 6 {
        '6'
    } else if d == 7 {
        '7'
    } else if d == 8 {
        '8'
    } else {
        '9'
    }
}

/// A number in decimal digits, without leading zeros.
pub open spec fn decimal(n: nat) -> Seq<char>
    decreases n,
{
    if n < 10 {
        seq![digit(n)]
    } else {
        decimal(n / 10).push(digit(n % 10))
    }
}

/// Whether `a` stands before `b` in the lexicographic order of their
/// characters' code points, which is the order of their UTF-8 encodings.
pub open spec fn lex_lt(a: Seq<char>, b: Seq<char>) -> bool
    decreases a.len(),
{
    if b.len() == 0 {
        false
    } else if a.len() == 0 {
        true
    } else if a[0] != b[0] {
        (a[0] as int) < (b[0] as int)
    } else {
        lex_lt(a.skip(1), b.skip(1))
    }
}

/// Two texts that agree on their first `n` characters compare as what
/// follows those characters does.
pub proof fn lemma_lex_lt_skip(a: Seq<char>, b: Seq<char>, n: int)
    requires
        0 <= n <= a.len(),
        n <= b.len(),
        forall|j: int| 0 <= j < n ==> a[j] == b[j],
    ensures
        lex_lt(a, b) == lex_lt(a.skip(n), b.skip(n)),
    decreases n,
{
    if n == 0 {
        assert(a.skip(0) =~= a);
        assert(b.skip(0) =~= b);
    } else {
        assert(a[0] == b[0]);
        let a1 = a.skip(1);
        let b1 = b.skip(1);
        assert forall|j: int| 0 <= j < n - 1 implies a1[j] == b1[j] by {
            assert(a1[j] == a[j + 1]);
            assert(b1[j] == b[j + 1]);
        }
        lemma_lex_lt_skip(a1, b1, n - 1);
        assert(a1.skip(n - 1) =~= a.skip(n));
        assert(b1.skip(n - 1) =~= b.skip(n));
    }
}

/// Of two texts either one stands before the other, or they are one text;
/// never two of these at once.
pub proof fn lemma_lex_lt_total(a: Seq<char>, b: Seq<char>)
    ensures
        lex_lt(a, b) || lex_lt(b, a) || a == b,
        !(lex_lt(a, b) && lex_lt(b, a)),
        a == b ==> !lex_lt(a, b),
    decreases a.len(),
{
    if a.len() == 0 || b.len() == 0 {
        if a.len() == 0 && b.len() == 0 {
            assert(a =~= b);
        }
    } else if a[0] == b[0] {
        lemma_lex_lt_total(a.skip(1), b.skip(1));
        if a.skip(1) == b.skip(1) {
            assert forall|j: int| 0 <= j < a.len() implies a[j] == b[j] by {
                if j > 0 {
                    assert(a[j] == a.skip(1)[j - 1]);
                    assert(b[j] == b.skip(1)[j - 1]);
                }
            }
            assert(a.len() == a.skip(1).len() + 1);
            assert(b.len() == b.skip(1).len() + 1);
            assert(a =~= b);
        }
    }
}

/// A text that stands before a second one stands before every text that
/// the second one stands before.
pub proof fn lemma_lex_lt_transitive(a: Seq<char>, b: Seq<char>, c: Seq<char>)
    requires
        lex_lt(a, b),
        lex_lt(b, c),
    ensures
        lex_lt(a, c),
    decreases a.len(),
{
    if a.len() > 0 && a[0] == b[0] && b[0] == c[0] {
        lemma_lex_lt_transitive(a.skip(1), b.skip(1), c.skip(1));
    }
}

/// What `leading` returns is within `s`, covers only characters of the class,
/// and stops at the end of `s` or before a character outside the class.
pub proof fn lemma_leading(s: Seq<char>, class: CharClass)
    ensures
        leading(s, class) <= s.len(),
        forall|j: int| 0 <= j < leading(s, class) ==> class.holds(#[trigger] s[j]),
        leading(s, class) == s.len() || !class.holds(s[leading(s, class) as int]),
    decreases s.len(),
{
    if s.len() > 0 && class.holds(s[0]) {
        let t = s.skip(1);
        lemma_leading(t, class);
        assert forall|j: int| 0 <= j < leading(s, class) implies class.holds(#[trigger] s[j]) by {
            if j > 0 {
                assert(s[j] == t[j - 1]);
            }
        }
        if leading(s, class) < s.len() {
            assert(s[leading(s, class) as int] == t[leading(t, class) as int]);
        }
    }
}

/// A prefix of `n` characters of the class that cannot be extended is the
/// leading run.
pub proof fn lemma_leading_is(s: Seq<char>, class: CharClass, n: int)
    requires
        0 <= n <= s.len(),
        forall|j: int| 0 <= j < n ==> class.holds(#[trigger] s[j]),
        n == s.len() || !class.holds(s[n]),
    ensures
        leading(s, class) == n,
    decreases n,
{
    if n > 0 {
        let t = s.skip(1);
        assert(class.holds(s[0]));
        assert forall|j: int| 0 <= j < n - 1 implies class.holds(#[trigger] t[j]) by {
            assert(t[j] == s[j + 1]);
        }
        if n < s.len() {
            assert(t[n - 1] == s[n]);
        }
        lemma_leading_is(t, class, n - 1);
    }
}

/// What `trailing` returns is within `s`, covers only characters of the class,
/// and stops at the start of `s` or after a character outside the class.
pub proof fn lemma_trailing(s: Seq<char>, class: CharClass)
    ensures
        trailing(s, class) <= s.len(),
        forall|j: int| s.len() - trailing(s, class) <= j < s.len() ==> class.holds(#[trigger] s[j]),
        trailing(s, class) == s.len() || !class.holds(s[s.len() - trailing(s, class) - 1]),
    decreases s.len(),
{
    if s.len() > 0 && class.holds(s.last()) {
        let t = s.drop_last();
        lemma_trailing(t, class);
        assert forall|j: int| s.len() - trailing(s, class) <= j < s.len() implies class.holds(
            #[trigger] s[j],
        ) by {
            if j < s.len() - 1 {
                assert(s[j] == t[j]);
            }
        }
        if trailing(s, class) < s.len() {
            assert(s[s.len() - trailing(s, class) - 1] == t[t.len() - trailing(t, class) - 1]);
        }
    }
}

/// A suffix of `n` characters of the class that cannot be extended is the
/// trailing run.
pub proof fn lemma_trailing_is(s: Seq<char>, class: CharClass, n: int)
    requires
        0 <= n <= s.len(),
        forall|j: int| s.len() - n <= j < s.len() ==> class.holds(#[trigger] s[j]),
        n == s.len() || !class.holds(s[s.len() - n - 1]),
    ensures
        trailing(s, class) == n,
    decreases n,
{
    if n > 0 {
        let t = s.drop_last();
        assert(class.holds(s[s.len() - 1]));
        assert forall|j: int| t.len() - (n - 1) <= j < t.len() implies class.holds(
            #[trigger] t[j],
        ) by {
            assert(t[j] == s[j]);
        }
        if n < s.len() {
            assert(t[t.len() - (n - 1) - 1] == s[s.len() - n - 1]);
        }
        lemma_trailing_is(t, class, n - 1);
    }
}

/// Where `find` succeeds, the pattern stands at the index it gives and at no
/// earlier one; where it fails, the pattern stands nowhere in `s`.
pub proof fn lemma_find(s: Seq<char>, pattern: Seq<char>)
    ensures
        match find(s, pattern) {
            Some(i) => {
                &&& 0 <= i <= s.len()
                &&& pattern.is_prefix_of(s.skip(i))
                &&& forall|j: int| 0 <= j < i ==> !pattern.is_prefix_of(#[trigger] s.skip(j))
            },
            None => forall|j: int| 0 <= j <= s.len() ==> !pattern.is_prefix_of(#[trigger] s.skip(j)),
        },
    decreases s.len(),
{
    assert(s.skip(0) =~= s);
    if pattern.is_prefix_of(s) {
    } else if s.len() == 0 {
        assert forall|j: int| 0 <= j <= s.len() implies !pattern.is_prefix_of(
            #[trigger] s.skip(j),
        ) by {
            assert(s.skip(j) =~= s);
        }
    } else {
        let t = s.skip(1);
        lemma_find(t, pattern);
        match find(t, pattern) {
            Some(i) => {
                assert(t.skip(i) =~= s.skip(i + 1));
                assert forall|j: int| 0 <= j < i + 1 implies !pattern.is_prefix_of(
                    #[trigger] s.skip(j),
                ) by {
                    if j > 0 {
                        assert(t.skip(j - 1) =~= s.skip(j));
                    }
                }
            },
            None => {
                assert forall|j: int| 0 <= j <= s.len() implies !pattern.is_prefix_of(
                    #[trigger] s.skip(j),
                ) by {
                    if j > 0 {
                        assert(t.skip(j - 1) =~= s.skip(j));
                    }
                }
            },
        }
    }
}

/// The first index at which the pattern stands is what `find` returns.
pub proof fn lemma_find_is(s: Seq<char>, pattern: Seq<char>, i: int)
    requires
        0 <= i <= s.len(),
        pattern.is_prefix_of(s.skip(i)),
        forall|j: int| 0 <= j < i ==> !pattern.is_prefix_of(#[trigger] s.skip(j)),
    ensures
        find(s, pattern) == Some(i),
{
    lemma_find(s, pattern);
}

/// Where the pattern stands at no index, `find` fails.
pub proof fn lemma_find_none(s: Seq<char>, pattern: Seq<char>)
    requires
        forall|j: int| 0 <= j <= s.len() ==> !pattern.is_prefix_of(#[trigger] s.skip(j)),
    ensures
        find(s, pattern) is None,
{
    lemma_find(s, pattern);
}

/// Where `a` holds characters of the class only, and `b` does not start
/// with one, the leading run of `a + b` is `a`.
pub proof fn lemma_leading_concat(a: Seq<char>, b: Seq<char>, class: CharClass)
    requires
        forall|j: int| 0 <= j < a.len() ==> class.holds(#[trigger] a[j]),
        b.len() == 0 || !class.holds(b[0]),
    ensures
        leading(a + b, class) == a.len(),
{
    let s = a + b;
    assert forall|j: int| 0 <= j < a.len() implies class.holds(#[trigger] s[j]) by {
        assert(s[j] == a[j]);
    }
    if b.len() > 0 {
        assert(s[a.len() as int] == b[0]);
    }
    lemma_leading_is(s, class, a.len() as int);
}

/// What `trim_end` leaves does not end with whitespace, and `trim_end`
/// leaves it as it is.
pub proof fn lemma_trim_end(s: Seq<char>)
    ensures
        trailing(trim_end(s), CharClass::Whitespace) == 0,
        trim_end(trim_end(s)) == trim_end(s),
        trim_end(s).len() <= s.len(),
        forall|j: int| 0 <= j < trim_end(s).len() ==> trim_end(s)[j] == s[j],
{
    lemma_trailing(s, CharClass::Whitespace);
    let t = trim_end(s);
    if t.len() > 0 {
        assert(t.last() == s[t.len() - 1]);
    }
    assert(trailing(t, CharClass::Whitespace) == 0);
    assert(t.take(t.len() as int) =~= t);
}

/// What `trim` leaves neither starts nor ends with whitespace, is a part of
/// `s`, and `trim` leaves it as it is.
pub proof fn lemma_trim(s: Seq<char>)
    ensures
        leading(trim(s), CharClass::Whitespace) == 0,
        trailing(trim(s), CharClass::Whitespace) == 0,
        trim(trim(s)) == trim(s),
        exists|from: int, to: int| 0 <= from <= to <= s.len() && trim(s) == s.subrange(from, to),
{
    lemma_leading(s, CharClass::Whitespace);
    let from = leading(s, CharClass::Whitespace) as int;
    let middle = trim_start(s);
    lemma_trim_end(middle);
    let t = trim(s);
    let to = from + t.len();
    assert(t =~= s.subrange(from, to));
    if t.len() > 0 {
        assert(t[0] == middle[0]);
        assert(middle[0] == s[from]);
    }
    assert(leading(t, CharClass::Whitespace) == 0);
    assert(trim_start(t) =~= t);
}

/// A text that neither starts nor ends with whitespace is left as it is by
/// `trim`, also with whitespace before it and behind it.
pub proof fn lemma_trim_padded(before: Seq<char>, s: Seq<char>, after: Seq<char>)
    requires
        s.len() > 0,
        leading(s, CharClass::Whitespace) == 0,
        trailing(s, CharClass::Whitespace) == 0,
        forall|j: int| 0 <= j < before.len() ==> is_whitespace(#[trigger] before[j]),
        forall|j: int| 0 <= j < after.len() ==> is_whitespace(#[trigger] after[j]),
    ensures
        trim(before + s + after) == s,
{
    let whole = before + s + after;
    assert(!is_whitespace(s[0]));
    assert(!is_whitespace(s.last()));
    assert forall|j: int| 0 <= j < before.len() implies CharClass::Whitespace.holds(
        #[trigger] whole[j],
    ) by {
        assert(whole[j] == before[j]);
    }
    assert(whole[before.len() as int] == s[0]);
    lemma_leading_is(whole, CharClass::Whitespace, before.len() as int);
    let middle = trim_start(whole);
    assert(middle =~= s + after);
    assert forall|j: int| middle.len() - after.len() <= j < middle.len() implies
        CharClass::Whitespace.holds(#[trigger] middle[j]) by {
        assert(middle[j] == after[j - s.len()]);
    }
    assert(middle[middle.len() - after.len() - 1] == s.last());
    lemma_trailing_is(middle, CharClass::Whitespace, after.len() as int);
    assert(trim_end(middle) =~= s);
}

/// A pattern stands at the start of a text where the text is long enough
/// and holds the characters of the pattern, one by one.
pub proof fn lemma_prefix_chars(pattern: Seq<char>, s: Seq<char>)
    ensures
        pattern.is_prefix_of(s) <==> (pattern.len() <= s.len() && forall|k: int|
            0 <= k < pattern.len() ==> s[k] == pattern[k]),
{
    if pattern.len() <= s.len() {
        let head = s.subrange(0, pattern.len() as int);
        if pattern.is_prefix_of(s) {
            assert forall|k: int| 0 <= k < pattern.len() implies s[k] == pattern[k] by {
                assert(head[k] == s[k]);
            }
        }
        if forall|k: int| 0 <= k < pattern.len() ==> s[k] == pattern[k] {
            assert(pattern =~= head);
        }
    }
}

/// Whether a pattern stands at an index depends on the characters from that
/// index on, as many as the pattern has, and on nothing else.
pub proof fn lemma_stands_alike(pattern: Seq<char>, a: Seq<char>, b: Seq<char>, at: int)
    requires
        0 <= at <= a.len(),
        at <= b.len(),
        pattern.len() > 0,
        (at + pattern.len() <= a.len()) == (at + pattern.len() <= b.len()),
        forall|k: int| at <= k < at + pattern.len() && k < a.len() ==> k < b.len() && a[k] == b[k],
    ensures
        pattern.is_prefix_of(a.skip(at)) == pattern.is_prefix_of(b.skip(at)),
{
    lemma_prefix_chars(pattern, a.skip(at));
    lemma_prefix_chars(pattern, b.skip(at));
    if at + pattern.len() <= a.len() {
        assert forall|k: int| 0 <= k < pattern.len() implies a.skip(at)[k] == b.skip(at)[k] by {
            assert(a.skip(at)[k] == a[at + k]);
            assert(b.skip(at)[k] == b[at + k]);
        }
    }
}

/// A pattern that stands in a part of a text stands in the text, as far
/// from the start of the text as the part starts later.
pub proof fn lemma_stands_within(
    pattern: Seq<char>,
    whole: Seq<char>,
    from: int,
    to: int,
    at: int,
)
    requires
        0 <= from <= to <= whole.len(),
        0 <= at <= to - from,
        pattern.is_prefix_of(whole.subrange(from, to).skip(at)),
    ensures
        pattern.is_prefix_of(whole.skip(from + at)),
{
    let part = whole.subrange(from, to);
    lemma_prefix_chars(pattern, part.skip(at));
    lemma_prefix_chars(pattern, whole.skip(from + at));
    assert forall|k: int| 0 <= k < pattern.len() implies whole.skip(from + at)[k] == pattern[k] by {
        assert(part.skip(at)[k] == part[at + k]);
        assert(part[at + k] == whole[from + at + k]);
    }
}

/// Decodes `s` into its characters.
pub fn to_chars(s: &str) -> (r: Vec<char>)
    ensures
        r@ == s@,
{
    let mut out: Vec<char> = Vec::new();
    for c in it: s.chars()
        invariant
            it.seq() == s@,
            out@ == s@.take(it.index()),
    {
        out.push(c);
    }
    out
}

/// The position at which the run of `class` that starts at `pos` ends, not
/// going beyond `limit`.
pub fn run_end(chars: &Vec<char>, pos: usize, limit: usize, class: CharClass) -> (end: usize)
    requires
        pos <= limit <= chars.len(),
    ensures
        end == pos + leading(chars@.subrange(pos as int, limit as int), class),
        pos <= end <= limit,
{
    let mut i: usize = pos;
    while i < limit && class.test(chars[i])
        invariant
            pos <= i <= limit <= chars.len(),
            forall|j: int| pos <= j < i ==> class.holds(#[trigger] chars@[j]),
        decreases limit - i,
    {
        i += 1;
    }
    proof {
        let s = chars@.subrange(pos as int, limit as int);
        assert forall|j: int| 0 <= j < i - pos implies class.holds(#[trigger] s[j]) by {
            assert(s[j] == chars@[pos + j]);
        }
        lemma_leading_is(s, class, i - pos);
    }
    i
}

/// The position at which the run of `class` that ends at `end` starts, not
/// going below `start`.
pub fn run_start(chars: &Vec<char>, start: usize, end: usize, class: CharClass) -> (begin: usize)
    requires
        start <= end <= chars.len(),
    ensures
        begin == end - trailing(chars@.subrange(start as int, end as int), class),
        start <= begin <= end,
{
    let mut i: usize = end;
    while i > start && class.test(chars[i - 1])
        invariant
            start <= i <= end <= chars.len(),
            forall|j: int| i <= j < end ==> class.holds(#[trigger] chars@[j]),
        decreases i,
    {
        i -= 1;
    }
    proof {
        let s = chars@.subrange(start as int, end as int);
        assert forall|j: int| s.len() - (end - i) <= j < s.len() implies class.holds(
            #[trigger] s[j],
        ) by {
            assert(s[j] == chars@[start + j]);
        }
        lemma_trailing_is(s, class, end - i);
    }
    i
}

/// The range of `chars` that is left of the range from `from` to `to` when
/// the whitespace at either end is taken off.
pub fn trim_range(chars: &Vec<char>, from: usize, to: usize) -> (r: (usize, usize))
    requires
        from <= to <= chars.len(),
    ensures
        from <= r.0 <= r.1 <= to,
        chars@.subrange(r.0 as int, r.1 as int) == trim(chars@.subrange(from as int, to as int)),
{
    let first = run_end(chars, from, to, CharClass::Whitespace);
    let last = run_start(chars, first, to, CharClass::Whitespace);
    proof {
        let whole = chars@.subrange(from as int, to as int);
        assert(trim_start(whole) =~= chars@.subrange(first as int, to as int));
        assert(trim(whole) =~= chars@.subrange(first as int, last as int));
    }
    (first, last)
}

/// Whether `pattern` stands in `chars` at `pos`.
pub fn stands_at(chars: &Vec<char>, pos: usize, pattern: &Vec<char>) -> (r: bool)
    requires
        pos <= chars.len(),
    ensures
        r == pattern@.is_prefix_of(chars@.skip(pos as int)),
{
    if pattern.len() > chars.len() - pos {
        return false;
    }
    let mut k: usize = 0;
    while k < pattern.len()
        invariant
            pos <= chars.len(),
            pattern.len() <= chars.len() - pos,
            k <= pattern.len(),
            forall|j: int| 0 <= j < k ==> pattern@[j] == chars@[pos + j],
        decreases pattern.len() - k,
    {
        if pattern[k] != chars[pos + k] {
            proof {
                let s = chars@.skip(pos as int);
                assert(s.subrange(0, pattern@.len() as int)[k as int] == chars@[pos + k]);
            }
            return false;
        }
        k += 1;
    }
    proof {
        let s = chars@.skip(pos as int);
        assert(pattern@ =~= s.subrange(0, pattern@.len() as int));
    }
    true
}

/// The first position from `pos` on at which `pattern` stands in `chars`.
pub fn find_from(chars: &Vec<char>, pos: usize, pattern: &Vec<char>) -> (r: Option<usize>)
    requires
        pos <= chars.len(),
    ensures
        match r {
            Some(at) => pos <= at <= chars.len() && find(chars@.skip(pos as int), pattern@) == Some(
                at - pos,
            ),
            None => find(chars@.skip(pos as int), pattern@) is None,
        },
{
    let ghost s = chars@.skip(pos as int);
    let mut i: usize = pos;
    loop
        invariant
            pos <= i <= chars.len(),
            s == chars@.skip(pos as int),
            forall|j: int| 0 <= j < i - pos ==> !pattern@.is_prefix_of(#[trigger] s.skip(j)),
        decreases chars.len() - i,
    {
        proof {
            assert(s.skip(i - pos) =~= chars@.skip(i as int));
        }
        if stands_at(chars, i, pattern) {
            proof {
                lemma_find_is(s, pattern@, i - pos);
            }
            return Some(i);
        }
        if i == chars.len() {
            proof {
                lemma_find_none(s, pattern@);
            }
            return None;
        }
        i += 1;
    }
}

/// Whether `a` stands before `b` in the lexicographic order.
pub fn stands_before(a: &Vec<char>, b: &Vec<char>) -> (r: bool)
    ensures
        r == lex_lt(a@, b@),
{
    let mut i: usize = 0;
    while i < a.len() && i < b.len() && a[i] == b[i]
        invariant
            i <= a.len(),
            i <= b.len(),
            forall|j: int| 0 <= j < i ==> a@[j] == b@[j],
        decreases a.len() - i,
    {
        i += 1;
    }
    proof {
        lemma_lex_lt_skip(a@, b@, i as int);
        let x = a@.skip(i as int);
        let y = b@.skip(i as int);
        assert(x.len() == a.len() - i && y.len() == b.len() - i);
        if i < a.len() && i < b.len() {
            assert(x[0] == a@[i as int] && y[0] == b@[i as int]);
        }
    }
    if i == b.len() {
        false
    } else if i == a.len() {
        true
    } else {
        let x: char = a[i];
        let y: char = b[i];
        x < y
    }
}

/// The text of a decimal digit.
fn digit_text(d: usize) -> (r: &'static str)
    requires
        d < 10,
    ensures
        r@ == seq![digit(d as nat)],
{
    let r = if d == 0 {
        "0"
    } else if d == 1 {
        "1"
    } else if d == 2 {
        "2"
    } else if d == 3 {
        "3"
    } else if d == 4 {
        "4"
    } else if d == 5 {
        "5"
    } else if d == 6 {
        "6"
    } else if d == 7 {
        "7"
    } else if d == 8 {
        "8"
    } else {
        "9"
    };
    proof {
        reveal_strlit("0");
        reveal_strlit("1");
        reveal_strlit("2");
        reveal_strlit("3");
        reveal_strlit("4");
        reveal_strlit("5");
        reveal_strlit("6");
        reveal_strlit("7");
        reveal_strlit("8");
        reveal_strlit("9");
        assert(r@ =~= seq![digit(d as nat)]);
    }
    r
}

/// Writes `n` in decimal digits.
pub fn to_decimal(n: usize) -> (r: String)
    ensures
        r@ == decimal(n as nat),
    decreases n,
{
    if n < 10 {
        String::from_str(digit_text(n))
    } else {
        let mut text = to_decimal(n / 10);
        text.append(digit_text(n % 10));
        proof {
            assert(text@ =~= decimal(n as nat));
        }
        text
    }
}

/// The characters of `text` from `from` up to `to`, as a string of their own.
pub fn slice_string(text: &str, from: usize, to: usize) -> (r: String)
    requires
        from <= to <= text@.len(),
    ensures
        r@ == text@.subrange(from as int, to as int),
{
    text.substring_char(from, to).to_owned()
}

} // verus!
