//! Slicing texts by characters.

use vstd::prelude::*;
use vstd::string::StrSliceExecFns;

verus! {

/// The first `count` characters of `text`, or all of it where it has fewer.
pub open spec fn until(text: Seq<char>, count: int) -> Seq<char> {
    if count >= text.len() {
        text
    } else {
        text.take(count)
    }
}

/// What follows the first `count` characters of `text`: nothing, where it has no more.
pub open spec fn after(text: Seq<char>, count: int) -> Seq<char> {
    if count >= text.len() {
        Seq::empty()
    } else {
        text.skip(count)
    }
}

/// Slices of a text at character boundaries, counted in characters.
pub trait StringSliceExt {
    /// The characters of the text.
    spec fn text(&self) -> Seq<char>;

    /// The text before the character with index `char_index`.
    fn slice_until(&self, char_index: usize) -> (part: &str)
        ensures
            part@ == until(self.text(), char_index as int),
    ;

    /// The text from the character with index `char_index` on.
    fn slice_after(&self, char_index: usize) -> (part: &str)
        ensures
            part@ == after(self.text(), char_index as int),
    ;
}

impl StringSliceExt for String {
    open spec fn text(&self) -> Seq<char> {
        self@
    }

    fn slice_until(&self, char_index: usize) -> (part: &str) {
        let whole = self.as_str();
        let len = whole.unicode_len();
        if char_index >= len {
            whole
        } else {
            whole.substring_char(0, char_index)
        }
    }

    fn slice_after(&self, char_index: usize) -> (part: &str) {
        let whole = self.as_str();
        let len = whole.unicode_len();
        if char_index >= len {
            whole.substring_char(len, len)
        } else {
            whole.substring_char(char_index, len)
        }
    }
}

} // verus!
