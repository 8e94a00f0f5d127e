//! Small verified helpers for working with strings.

use vstd::prelude::*;

verus! {

/// Compare two string slices character by character.
pub fn str_eq(a: &str, b: &str) -> (r: bool)
    ensures
        r == (a@ == b@),
{
    let n = a.unicode_len();
    if n != b.unicode_len() {
        return false;
    }
    let mut i: usize = 0;
    while i < n
        invariant
            n == a@.len(),
            n == b@.len(),
            i <= n,
            forall|j: int| 0 <= j < i ==> a@[j] == b@[j],
        decreases n - i,
    {
        let ac = a.get_char(i);
        let bc = b.get_char(i);
        if ac as u32 != bc as u32 {
            return false;
        }
        assert(ac == bc);
        i = i + 1;
    }
    assert(a@ =~= b@);
    true
}

} // verus!
