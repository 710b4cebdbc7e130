//! Character-indexed substrings of strings.

use vstd::prelude::*;
use crate::text::{chars_of, string_of_range};

verus! {

/// The characters of `s` from index `start` through index `end`, both included;
/// empty when `start > end`.
pub open spec fn substring_spec(s: Seq<char>, start: int, end: int) -> Seq<char> {
    if start <= end {
        s.subrange(start, end + 1)
    } else {
        Seq::empty()
    }
}

/// Substrings counted in characters.
pub trait StringOperations: View<V = Seq<char>> {
    /// The characters from index `start` through index `end`, both included.
    /// Every index in `start..=end` must name a character of the string.
    fn substring(&self, start: usize, end: usize) -> (r: String)
        requires
            start <= end ==> end < self@.len(),
        ensures
            r@ == substring_spec(self@, start as int, end as int),
    ;
}

impl StringOperations for String {
    fn substring(&self, start: usize, end: usize) -> (r: String) {
        if start > end {
            return String::new();
        }
        let chars = chars_of(self.as_str());
        assert(chars@ == self@);
        assert(end < chars.len());
        string_of_range(&chars, start, end + 1)
    }
}

} // verus!
