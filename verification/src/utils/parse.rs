//! Functional text-consuming helpers: each call returns what it read and
//! the rest of the input.

use vstd::prelude::*;

verus! {

/// Read one character; returns it (if any) and the remaining input.
pub fn take_char(input: &str) -> (r: (Option<char>, &str))
    ensures
        input@.len() == 0 ==> r.0 is None && r.1@ == input@,
        input@.len() > 0 ==> r.0 == Some(input@[0]) && r.1@ == input@.drop_first(),
{
    let n = input.unicode_len();
    if n == 0 {
        (None, input)
    } else {
        let c = input.get_char(0);
        let rest = input.substring_char(1, n);
        proof {
            assert(rest@ =~= input@.drop_first());
        }
        (Some(c), rest)
    }
}

/// Read the longest prefix whose characters satisfy `f`; returns that prefix
/// and the remaining input, which starts with a character refusing `f` when
/// it is not empty.
pub fn take_while<'a, F: Fn(char) -> bool>(input: &'a str, f: F) -> (r: (&'a str, &'a str))
    requires
        forall|c: char| #[trigger] call_requires(f, (c,)),
    ensures
        r.0@ + r.1@ == input@,
        forall|j: int| 0 <= j < r.0@.len() ==> call_ensures(f, (input@[j],), true),
        r.1@.len() > 0 ==> call_ensures(f, (r.1@[0],), false),
{
    let n = input.unicode_len();
    let mut i: usize = 0;
    while i < n
        invariant
            n == input@.len(),
            i <= n,
            forall|c: char| #[trigger] call_requires(f, (c,)),
            forall|j: int| 0 <= j < i ==> call_ensures(f, (input@[j],), true),
        decreases n - i,
    {
        let c = input.get_char(i);
        if !f(c) {
            let found = input.substring_char(0, i);
            let rest = input.substring_char(i, n);
            proof {
                assert(found@ + rest@ =~= input@);
                assert(rest@[0] == input@[i as int]);
            }
            return (found, rest);
        }
        i = i + 1;
    }
    proof {
        reveal_strlit("");
        assert(input@ + ""@ =~= input@);
    }
    (input, "")
}

} // verus!
