//! Source types of signals, told apart by name.

use vstd::prelude::*;

verus! {

/// `needle` occurs in `haystack` at offset `at`.
pub open spec fn occurs_at(haystack: Seq<char>, needle: Seq<char>, at: int) -> bool {
    0 <= at && at + needle.len() <= haystack.len() && haystack.subrange(
        at,
        at + needle.len(),
    ) == needle
}

/// `needle` is a contiguous part of `haystack`.
pub open spec fn has_infix(haystack: Seq<char>, needle: Seq<char>) -> bool {
    exists|at: int| occurs_at(haystack, needle, at)
}

/// A signal of this name reports volatility: the name contains the tag
/// `volatility` somewhere, in lower case.
pub open spec fn volatility_name(name: Seq<char>) -> bool {
    has_infix(name, "volatility"@)
}

/// The characters of `text`, in order.
fn characters(text: &str) -> (r: Vec<char>)
    ensures
        r@ == text@,
{
    let mut r: Vec<char> = Vec::new();
    for c in it: text.chars()
        invariant
            r@ == it.seq().take(it.index()),
            it.seq() == text@,
    {
        r.push(c);
    }
    r
}

fn matches_at(haystack: &Vec<char>, needle: &[char], at: usize) -> (r: bool)
    requires
        at + needle@.len() <= haystack@.len(),
    ensures
        r == occurs_at(haystack@, needle@, at as int),
{
    let ghost window = haystack@.subrange(at as int, at + needle@.len());
    let mut j: usize = 0;
    while j < needle.len()
        invariant
            j <= needle@.len(),
            at + needle@.len() <= haystack.len(),
            window == haystack@.subrange(at as int, at + needle@.len()),
            forall|k: int| 0 <= k < j ==> window[k] == needle@[k],
        decreases needle@.len() - j,
    {
        if haystack[at + j] != needle[j] {
            assert(window[j as int] != needle@[j as int]);
            return false;
        }
        j += 1;
    }
    assert(window =~= needle@);
    true
}

/// Whether `needle` is a contiguous part of `haystack`.
pub fn contains_chars(haystack: &Vec<char>, needle: &[char]) -> (r: bool)
    ensures
        r == has_infix(haystack@, needle@),
{
    if needle.len() > haystack.len() {
        return false;
    }
    let last: usize = haystack.len() - needle.len();
    let mut at: usize = 0;
    while at < last
        invariant
            at <= last,
            last + needle@.len() == haystack@.len(),
            forall|k: int| 0 <= k < at ==> !occurs_at(haystack@, needle@, k),
        decreases last - at,
    {
        if matches_at(haystack, needle, at) {
            return true;
        }
        at += 1;
    }
    matches_at(haystack, needle, last)
}

/// Whether a signal of this name reports volatility.
pub fn is_volatility(name: &str) -> (r: bool)
    ensures
        r == volatility_name(name@),
{
    let tag: [char; 10] = ['v', 'o', 'l', 'a', 't', 'i', 'l', 'i', 't', 'y'];
    proof {
        reveal_strlit("volatility");
        assert(tag@ =~= "volatility"@);
    }
    let name_chars = characters(name);
    contains_chars(&name_chars, tag.as_slice())
}

} // verus!
