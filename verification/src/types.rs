use vstd::prelude::*;

verus! {

/// Extends the first three components of `a3` with `w` as a fourth.
pub fn a3toa4<T: Copy>(a3: &[T], w: T) -> (a4: [T; 4])
    requires
        a3@.len() >= 3,
    ensures
        a4@ == seq![a3@[0], a3@[1], a3@[2], w],
{
    let a4 = [a3[0], a3[1], a3[2], w];
    assert(a4@ =~= seq![a3@[0], a3@[1], a3@[2], w]);
    a4
}

} // verus!
