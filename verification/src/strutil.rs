//! Small verified string helpers.

use vstd::prelude::*;

verus! {

/// Character-wise equality of two string slices.
pub fn str_eq(a: &str, b: &str) -> (r: bool)
    ensures
        r == (a@ == b@),
{
    let owned_a: String = a.to_owned();
    let owned_b: String = b.to_owned();
    owned_a == owned_b
}

/// The character sequences of a sequence of strings.
pub open spec fn ids_view(v: Seq<String>) -> Seq<Seq<char>> {
    v.map_values(|s: String| s@)
}

/// Whether some element of `v` spells `x`.
pub fn vec_contains_str(v: &Vec<String>, x: &String) -> (r: bool)
    ensures
        r == ids_view(v@).contains(x@),
{
    let n = v.len();
    let mut i: usize = 0;
    while i < n
        invariant
            n == v@.len(),
            i <= n,
            forall|j: int| 0 <= j < i ==> ids_view(v@)[j] != x@,
        decreases n - i,
    {
        if v[i] == *x {
            proof {
                assert(ids_view(v@)[i as int] == x@);
            }
            return true;
        }
        i = i + 1;
    }
    false
}

/// Position of the first element of `v` that spells `x`.
pub fn find_first(v: &Vec<String>, x: &String) -> (r: Option<usize>)
    ensures
        match r {
            Some(j) => {
                &&& j < v@.len()
                &&& v@[j as int]@ == x@
                &&& forall|j2: int| 0 <= j2 < j ==> v@[j2]@ != x@
                &&& ids_view(v@).index_of_first(x@) == Some(j as int)
            },
            None => !ids_view(v@).contains(x@) && ids_view(v@).index_of_first(x@) is None,
        },
{
    let n = v.len();
    let mut i: usize = 0;
    while i < n
        invariant
            n == v@.len(),
            i <= n,
            forall|j: int| 0 <= j < i ==> v@[j]@ != x@,
        decreases n - i,
    {
        if v[i] == *x {
            proof {
                ids_view(v@).index_of_first_ensures(x@);
                assert(ids_view(v@)[i as int] == x@);
                assert(forall|j: int| 0 <= j < i ==> ids_view(v@)[j] != x@);
            }
            return Some(i);
        }
        i = i + 1;
    }
    proof {
        assert(forall|j: int| 0 <= j < ids_view(v@).len() ==> ids_view(v@)[j] != x@);
        ids_view(v@).index_of_first_ensures(x@);
    }
    None
}

/// A copy of a vector of strings, element for element.
pub fn clone_ids(v: &Vec<String>) -> (r: Vec<String>)
    ensures
        r@ == v@,
{
    let r = v.clone();
    proof {
        assert forall|i: int| 0 <= i < v@.len() implies r@[i] == v@[i] by {
            assert(cloned::<String>(v@[i], r@[i]));
        }
        assert(r@ =~= v@);
    }
    r
}

} // verus!
