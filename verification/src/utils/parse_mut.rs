//! In-place text-consuming helpers: each call advances the input slice.

use vstd::prelude::*;

verus! {

/// Read one character, advancing the input past it.
pub fn take_char(input: &mut &str) -> (r: Option<char>)
    ensures
        (*old(input))@.len() == 0 ==> r is None && (*final(input))@ == (*old(input))@,
        (*old(input))@.len() > 0 ==> r == Some((*old(input))@[0]) && (*final(input))@ == (*old(
            input,
        ))@.drop_first(),
{
    let cur: &str = *input;
    let (c, rest) = crate::utils::parse::take_char(cur);
    *input = rest;
    c
}

/// Read the longest prefix whose characters satisfy `f`, advancing the
/// input past it; the input then starts with a character refusing `f` when
/// it is not empty.
pub fn take_while<'a, F: Fn(char) -> bool>(input: &mut &'a str, f: F) -> (r: &'a str)
    requires
        forall|c: char| #[trigger] call_requires(f, (c,)),
    ensures
        r@ + (*final(input))@ == (*old(input))@,
        forall|j: int| 0 <= j < r@.len() ==> call_ensures(f, ((*old(input))@[j],), true),
        (*final(input))@.len() > 0 ==> call_ensures(f, ((*final(input))@[0],), false),
{
    let cur: &'a str = *input;
    let (found, rest) = crate::utils::parse::take_while(cur, f);
    *input = rest;
    found
}

} // verus!
