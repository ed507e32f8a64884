//! The substring test on characters.

use crate::text::{contains, occurs_at};
use vstd::prelude::*;

verus! {

/// Tells whether `needle` stands in `hay` at position `at`.
pub fn occurs_here(hay: &[char], needle: &[char], at: usize) -> (found: bool)
    ensures
        found == occurs_at(hay@, needle@, at as int),
{
    let width: usize = needle.len();
    let room: usize = hay.len();
    if width > room || at > room - width {
        return false;
    }
    let ghost window = hay@.subrange(at as int, at + width);
    let mut k: usize = 0;
    while k < width
        invariant
            k <= width == needle@.len(),
            at + width <= room == hay@.len(),
            window == hay@.subrange(at as int, at + width),
            forall|j: int| 0 <= j < k ==> window[j] == needle@[j],
        decreases width - k,
    {
        if hay[at + k] != needle[k] {
            assert(window[k as int] != needle@[k as int]);
            return false;
        }
        k += 1;
    }
    assert(window =~= needle@);
    true
}

/// Tells whether `needle` is a contiguous run of characters of `hay`.
pub fn find(hay: &[char], needle: &[char]) -> (found: bool)
    ensures
        found == contains(hay@, needle@),
{
    if needle.len() > hay.len() {
        return false;
    }
    let last: usize = hay.len() - needle.len();
    let mut at: usize = 0;
    loop
        invariant
            at <= last,
            last == hay@.len() - needle@.len(),
            forall|j: int| 0 <= j < at ==> !occurs_at(hay@, needle@, j),
        decreases last - at,
    {
        if occurs_here(hay, needle, at) {
            return true;
        }
        if at == last {
            return false;
        }
        at += 1;
    }
}

} // verus!
