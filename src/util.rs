use vstd::prelude::*;

verus! {

/// The items of `v` in the opposite order.
pub fn reversed<T>(v: Vec<T>) -> (r: Vec<T>)
    ensures
        r@ == v@.reverse(),
{
    let ghost v0 = v@;
    let mut v = v;
    let mut r: Vec<T> = Vec::new();
    while v.len() > 0
        invariant
            r.len() + v.len() == v0.len(),
            v@ == v0.subrange(0, v.len() as int),
            forall|i: int| 0 <= i < r.len() ==> #[trigger] r@[i] == v0[v0.len() - 1 - i],
        decreases v.len(),
    {
        let x = v.pop().unwrap();
        r.push(x);
    }
    assert(r@ =~= v0.reverse());
    r
}

} // verus!
