//! Identifier case conversion and enum prefix stripping.

use vstd::prelude::*;
use crate::text::{chars_of, is_upper, string_of, upper_of};

verus! {

/// Name for what `heck::ToSnakeCase::to_snake_case` returns.
pub uninterp spec fn snake_of(s: Seq<char>) -> Seq<char>;

/// Name for what `heck::ToUpperCamelCase::to_upper_camel_case` returns.
pub uninterp spec fn camel_of(s: Seq<char>) -> Seq<char>;

/// Relies on `heck::ToSnakeCase::to_snake_case`: the snake-case form of an identifier.
#[verifier::external_body]
pub(crate) fn to_snake(s: &str) -> (r: String)
    ensures
        r@ == snake_of(s@),
{
    heck::ToSnakeCase::to_snake_case(s)
}

/// Relies on `heck::ToUpperCamelCase::to_upper_camel_case`: the upper-camel-case form
/// of an identifier.
#[verifier::external_body]
pub(crate) fn to_upper_camel(s: &str) -> (r: String)
    ensures
        r@ == camel_of(s@),
{
    heck::ToUpperCamelCase::to_upper_camel_case(s)
}

/// `name` with `prefix` removed, when what remains starts with an uppercase
/// character; `name` itself otherwise.
pub open spec fn stripped_name(prefix: Seq<char>, name: Seq<char>) -> Seq<char> {
    let rest = if prefix.is_prefix_of(name) { name.skip(prefix.len() as int) } else { name };
    if rest.len() > 0 && upper_of(rest[0]) {
        rest
    } else {
        name
    }
}

/// Whether `p` is a prefix of `s`, by comparing characters.
fn starts_with(s: &Vec<char>, p: &Vec<char>) -> (r: bool)
    ensures
        r == p@.is_prefix_of(s@),
{
    if p.len() > s.len() {
        return false;
    }
    let mut i: usize = 0;
    while i < p.len()
        invariant
            p.len() <= s.len(),
            0 <= i <= p.len(),
            forall|j: int| 0 <= j < i ==> p@[j] == s@[j],
        decreases p.len() - i,
    {
        if p[i] != s[i] {
            return false;
        }
        i = i + 1;
    }
    true
}

/// Strips an enum's type name from the front of one of its value names.
///
/// Both are taken to be in upper camel case already. The prefix is only
/// stripped at a word boundary: `Foo` comes off `FooBar` but not off `Foobar`,
/// and a name that would be left empty or start with a digit is kept whole.
pub fn strip_enum_prefix(prefix: &str, name: &str) -> (r: String)
    ensures
        r@ == stripped_name(prefix@, name@),
{
    let p = chars_of(prefix);
    let n = chars_of(name);
    let start: usize = if starts_with(&n, &p) { p.len() } else { 0 };
    let rest = string_of(&n.as_slice()[start..n.len()]);
    proof {
        assert(n@.subrange(start as int, n@.len() as int) =~= n@.skip(start as int));
        assert(n@.skip(0) =~= n@);
    }
    if start < n.len() && is_upper(n[start]) {
        rest
    } else {
        string_of(n.as_slice())
    }
}

} // verus!
