//! Callers hand the layout functions their own way of measuring text, as a
//! function from a text to an answer. The contracts of the layout functions
//! speak of such a function through a mathematical model of it.

use vstd::prelude::*;

verus! {

/// `f` may be called on every text.
pub open spec fn answers_all<R, F: Fn(&str) -> R>(f: &F) -> bool {
    forall|t: &str| call_requires(*f, (t,))
}

/// Whatever `f` answers on a text is the value of `m` on the text's characters.
pub open spec fn models<R, F: Fn(&str) -> R>(f: &F, m: spec_fn(Seq<char>) -> R) -> bool {
    forall|t: &str, r: R| #[trigger] call_ensures(*f, (t,), r) ==> r == m(t@)
}

} // verus!
