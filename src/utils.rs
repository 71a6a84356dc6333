use vstd::prelude::*;

verus! {

/// Appends `curr` unless `acc` already holds it.
pub fn add_if_not_found(acc: Vec<u32>, curr: u32) -> (r: Vec<u32>)
    ensures
        acc@.contains(curr) ==> r@ == acc@,
        !acc@.contains(curr) ==> r@ == acc@.push(curr),
{
    let mut out = acc;
    let mut i: usize = 0;
    while i < out.len()
        invariant
            0 <= i <= out.len(),
            out@ == acc@,
            forall|j: int| 0 <= j < i ==> out@[j] != curr,
        decreases out.len() - i,
    {
        if out[i] == curr {
            return out;
        }
        i += 1;
    }
    out.push(curr);
    out
}

/// Drops the first element.
pub fn remove_first<T>(acc: Vec<T>) -> (r: Vec<T>)
    requires
        acc.len() > 0,
    ensures
        r@ == acc@.drop_first(),
{
    let mut acc = acc;
    acc.remove(0);
    acc
}

/// Appends `a` at the end.
pub fn push<T>(acc: Vec<T>, a: T) -> (r: Vec<T>)
    ensures
        r@ == acc@.push(a),
{
    let mut acc = acc;
    acc.push(a);
    acc
}

/// Takes out the element at `index`, returning it and what is left.
pub fn remove<T>(acc: Vec<T>, index: usize) -> (r: (T, Vec<T>))
    requires
        index < acc.len(),
    ensures
        r.0 == acc@[index as int],
        r.1@ == acc@.remove(index as int),
{
    let mut acc = acc;
    let t = acc.remove(index);
    (t, acc)
}

} // verus!
