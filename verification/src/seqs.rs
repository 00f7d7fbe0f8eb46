//! Small verified operations on id lists.

use vstd::prelude::*;

verus! {

/// Index of the first occurrence of `x` in `v`.
pub fn find_index(v: &Vec<usize>, x: usize) -> (r: Option<usize>)
    ensures
        match r {
            Some(i) => v@.index_of_first(x) == Some(i as int),
            None => v@.index_of_first(x) is None,
        },
{
    proof {
        v@.index_of_first_ensures(x);
    }
    let mut i: usize = 0;
    while i < v.len()
        invariant
            i <= v.len(),
            forall|j: int| 0 <= j < i ==> v@[j] != x,
            match v@.index_of_first(x) {
                Some(index) => {
                    &&& v@.contains(x)
                    &&& 0 <= index < v@.len()
                    &&& v@[index] == x
                    &&& forall|j: int| 0 <= j < index < v@.len() ==> v@[j] != x
                },
                None => { !v@.contains(x) },
            },
        decreases v.len() - i,
    {
        if v[i] == x {
            return Some(i);
        }
        i = i + 1;
    }
    None
}

/// Whether two strings hold the same characters.
pub fn str_equal(a: &str, b: &str) -> (r: bool)
    ensures
        r == (a@ == b@),
{
    let n = a.unicode_len();
    if n != b.unicode_len() {
        return false;
    }
    let mut i: usize = 0;
    while i < n
        invariant
            n == a@.len(),
            n == b@.len(),
            i <= n,
            forall|j: int| 0 <= j < i ==> a@[j] == b@[j],
        decreases n - i,
    {
        if a.get_char(i) != b.get_char(i) {
            return false;
        }
        i = i + 1;
    }
    assert(a@ =~= b@);
    true
}

} // verus!
