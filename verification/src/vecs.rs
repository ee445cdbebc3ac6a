//! Taking the elements of a vector out in their order.

use vstd::prelude::*;

verus! {

/// The elements of a vector in the opposite order. Popping from the result
/// hands out the elements of `v` first to last.
pub fn reversed<T>(v: Vec<T>) -> (r: Vec<T>)
    ensures
        r@ == v@.reverse(),
{
    let ghost given = v@;
    let mut rest = v;
    let mut r: Vec<T> = Vec::new();
    while rest.len() > 0
        invariant
            rest@ == given.take(rest@.len() as int),
            r@.len() + rest@.len() == given.len(),
            forall|i: int| 0 <= i < r@.len() ==> #[trigger] r@[i] == given[given.len() - 1 - i],
        decreases rest.len(),
    {
        let x = rest.pop().unwrap();
        r.push(x);
        proof {
            assert(rest@ =~= given.take(rest@.len() as int));
        }
    }
    proof {
        assert(r@ =~= given.reverse());
    }
    r
}

} // verus!
