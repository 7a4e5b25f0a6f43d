use vstd::prelude::*;
use vstd::std_specs::convert::FromSpecImpl;

use crate::text::{stands_at, to_chars};

verus! {

/// The categories of imports, in the order in which they are written out.
#[derive(Debug, PartialEq, Eq, PartialOrd, Ord, Clone, Copy, Structural)]
pub enum ImportType {
    /// One of a few well-known packages: `react`, `lodash`, `prop-types`.
    Global,
    /// A module whose name starts with `@` and that is no alias.
    ScopedModule,
    /// An installed module: whatever fits no other category.
    Module,
    /// An alias of the project: `@` itself, or a name that starts with `@/`.
    Alias,
    /// A module of the project, named by a path that starts with `.`.
    Local,
    /// A stylesheet: a name that ends with `.css`.
    Style,
}

/// Whether `module` is one of the well-known packages.
pub open spec fn is_global(module: Seq<char>) -> bool {
    module == "react"@ || module == "lodash"@ || module == "prop-types"@
}

/// The category of a module specifier. The rules are tried in this order,
/// and the first that applies decides.
pub open spec fn category(module: Seq<char>) -> ImportType {
    if module == "@"@ || "@/"@.is_prefix_of(module) {
        ImportType::Alias
    } else if ".css"@.is_suffix_of(module) {
        ImportType::Style
    } else if "@"@.is_prefix_of(module) {
        ImportType::ScopedModule
    } else if "."@.is_prefix_of(module) {
        ImportType::Local
    } else if is_global(module) {
        ImportType::Global
    } else {
        ImportType::Module
    }
}

impl ImportType {
    /// The place of the category in the order of the categories.
    pub open spec fn rank(self) -> int {
        match self {
            ImportType::Global => 0,
            ImportType::ScopedModule => 1,
            ImportType::Module => 2,
            ImportType::Alias => 3,
            ImportType::Local => 4,
            ImportType::Style => 5,
        }
    }

    /// Computes the place of the category in the order of the categories.
    pub fn position(self) -> (r: u8)
        ensures
            r == self.rank(),
    {
        match self {
            ImportType::Global => 0,
            ImportType::ScopedModule => 1,
            ImportType::Module => 2,
            ImportType::Alias => 3,
            ImportType::Local => 4,
            ImportType::Style => 5,
        }
    }
}

impl Default for ImportType {
    fn default() -> (r: Self)
        ensures
            r == ImportType::Global,
    {
        ImportType::Global
    }
}

/// Whether `chars` is exactly `word`.
fn is_word(chars: &Vec<char>, word: &str) -> (r: bool)
    ensures
        r == (chars@ == word@),
{
    let pattern = to_chars(word);
    let r = pattern.len() == chars.len() && stands_at(chars, 0, &pattern);
    proof {
        assert(chars@.skip(0) =~= chars@);
        if r {
            assert(chars@ =~= word@);
        }
    }
    r
}

/// Whether `chars` starts with `word`.
fn has_prefix(chars: &Vec<char>, word: &str) -> (r: bool)
    ensures
        r == word@.is_prefix_of(chars@),
{
    let pattern = to_chars(word);
    proof {
        assert(chars@.skip(0) =~= chars@);
    }
    stands_at(chars, 0, &pattern)
}

/// Whether `chars` ends with `word`.
fn has_suffix(chars: &Vec<char>, word: &str) -> (r: bool)
    ensures
        r == word@.is_suffix_of(chars@),
{
    let pattern = to_chars(word);
    if pattern.len() > chars.len() {
        return false;
    }
    let at = chars.len() - pattern.len();
    proof {
        assert(chars@.skip(at as int).subrange(0, pattern@.len() as int) =~= chars@.subrange(
            at as int,
            chars@.len() as int,
        ));
    }
    stands_at(chars, at, &pattern)
}

impl From<&str> for ImportType {
    fn from(value: &str) -> (r: Self) {
        let chars = to_chars(value);
        if is_word(&chars, "@") || has_prefix(&chars, "@/") {
            ImportType::Alias
        } else if has_suffix(&chars, ".css") {
            ImportType::Style
        } else if has_prefix(&chars, "@") {
            ImportType::ScopedModule
        } else if has_prefix(&chars, ".") {
            ImportType::Local
        } else if is_word(&chars, "react") || is_word(&chars, "lodash") || is_word(
            &chars,
            "prop-types",
        ) {
            ImportType::Global
        } else {
            ImportType::Module
        }
    }
}

impl FromSpecImpl<&str> for ImportType {
    open spec fn obeys_from_spec() -> bool {
        true
    }

    open spec fn from_spec(value: &str) -> Self {
        category(value@)
    }
}

} // verus!
