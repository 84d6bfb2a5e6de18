//! Small list and scalar helpers shared by the driver and its callers.

use vstd::prelude::*;

verus! {

use crate::scalar::Scalar;

/// The elements that survive removal of the listed positions, in order.
pub open spec fn spec_remove_indices<T>(s: Seq<T>, idx: Seq<usize>, k: int) -> Seq<T>
    decreases k,
{
    if k <= 0 {
        Seq::empty()
    } else {
        spec_remove_indices(s, idx, k - 1) + (if idx.contains((k - 1) as usize) {
            Seq::empty()
        } else {
            seq![s[k - 1]]
        })
    }
}

/// Whether the list holds the value.
#[verifier::loop_isolation(false)]
fn contains_index(idx: &Vec<usize>, x: usize) -> (b: bool)
    ensures
        b == idx@.contains(x),
{
    let mut k: usize = 0;
    let mut found = false;
    while k < idx.len()
        invariant
            k <= idx@.len(),
            found == exists|j: int| 0 <= j < k && (#[trigger] idx@[j]) == x,
        decreases idx@.len() - k,
    {
        if idx[k] == x {
            found = true;
        }
        k = k + 1;
    }
    found
}

/// Drop the elements at the listed positions, keeping the order of the rest.
#[verifier::loop_isolation(false)]
pub fn remove_indices<T>(vec: Vec<T>, indices_to_remove: Vec<usize>) -> (r: Vec<T>)
    ensures
        r@ == spec_remove_indices(vec@, indices_to_remove@, vec@.len() as int),
{
    let ghost orig = vec@;
    let mut vec = vec;
    let mut r: Vec<T> = Vec::new();
    let mut i: usize = 0;
    let n = vec.len();
    while i < n
        invariant
            i <= n,
            n == orig.len(),
            vec@ == orig.subrange(i as int, n as int),
            r@ == spec_remove_indices(orig, indices_to_remove@, i as int),
        decreases n - i,
    {
        let item = vec.remove(0);
        proof {
            assert(item == orig[i as int]);
            assert(vec@ =~= orig.subrange(i as int + 1, n as int));
        }
        if !contains_index(&indices_to_remove, i) {
            r.push(item);
        }
        i = i + 1;
    }
    r
}

/// The midpoint of two scalars: `(a + b) / 2`.
pub fn midpoint(a: Scalar, b: Scalar) -> (m: Scalar)
    requires
        a.wf(),
        b.wf(),
    ensures
        m == Scalar::spec_div(Scalar::spec_add(a, b), Scalar::spec_from_int(2)),
        m.wf(),
{
    a.add(b).div(Scalar::from_int(2))
}

/// Whether two scalars are within a tolerance of each other:
/// `|a - b| < tol`.
pub fn eq_tolerance(a: Scalar, b: Scalar, tol: Scalar) -> (r: bool)
    requires
        a.wf(),
        b.wf(),
        tol.wf(),
    ensures
        r == Scalar::spec_lt(Scalar::spec_sub(a, b).spec_abs(), tol),
{
    a.sub(b).abs().lt(tol)
}

} // verus!
