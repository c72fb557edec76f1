//! Two update schedules over three equal-length sequences: one that carries a
//! read-after-write chain on `b` from one step to the next, and one that does
//! not. Additions wrap, as machine integers do.
use vstd::prelude::*;

verus! {

/// Length of each of the three sequences.
pub const CHAIN_LEN: usize = 100000;

/// `b` after either schedule: each element but the first gains the element of
/// `c` just before it.
pub open spec fn chained_b(b: Seq<i32>, c: Seq<i32>) -> Seq<i32> {
    Seq::new(b.len(), |k: int| if k == 0 { b[k] } else { b[k].wrapping_add(c[k - 1]) })
}

/// `a` after either schedule: every element gains the chained `b` at its
/// position. Both schedules compute the same `a` and `b`; they differ only in
/// how much of the work can overlap.
pub open spec fn chained_a(a: Seq<i32>, b: Seq<i32>, c: Seq<i32>) -> Seq<i32> {
    let nb = chained_b(b, c);
    Seq::new(a.len(), |k: int| a[k].wrapping_add(nb[k]))
}

/// Updates `a[i]` from `b[i]` and then `b[i + 1]` from `c[i]`, so that each step
/// reads the `b` that the step before wrote, and finally the last `a` from the
/// last `b`.
pub fn dependent(a: &mut Vec<i32>, b: &mut Vec<i32>, c: &Vec<i32>)
    requires
        old(a).len() == CHAIN_LEN,
        old(b).len() == CHAIN_LEN,
        c.len() == CHAIN_LEN,
    ensures
        final(b)@ == chained_b(old(b)@, c@),
        final(a)@ == chained_a(old(a)@, old(b)@, c@),
{
    let ghost a0 = a@;
    let ghost b0 = b@;
    let ghost nb = chained_b(b0, c@);
    let mut i: usize = 0;
    while i < CHAIN_LEN - 1
        invariant
            0 <= i < CHAIN_LEN,
            a.len() == CHAIN_LEN,
            b.len() == CHAIN_LEN,
            c.len() == CHAIN_LEN,
            b0.len() == CHAIN_LEN,
            a0.len() == CHAIN_LEN,
            nb == chained_b(b0, c@),
            forall|k: int| 0 <= k <= i ==> b@[k] == nb[k],
            forall|k: int| i < k < CHAIN_LEN ==> b@[k] == b0[k],
            forall|k: int| 0 <= k < i ==> a@[k] == a0[k].wrapping_add(nb[k]),
            forall|k: int| i <= k < CHAIN_LEN ==> a@[k] == a0[k],
        decreases CHAIN_LEN - i,
    {
        let x = a[i].wrapping_add(b[i]);
        a.set(i, x);
        let y = b[i + 1].wrapping_add(c[i]);
        b.set(i + 1, y);
        i = i + 1;
    }
    let z = a[CHAIN_LEN - 1].wrapping_add(b[CHAIN_LEN - 1]);
    a.set(CHAIN_LEN - 1, z);
    assert(b@ =~= nb);
    assert(a@ =~= chained_a(a0, b0, c@));
}

/// Updates `a[0]` first, then `b[i + 1]` from `c[i]` and `a[i + 1]` from the
/// fresh `b[i + 1]`, so that no step reads what the step before wrote.
pub fn independent(a: &mut Vec<i32>, b: &mut Vec<i32>, c: &Vec<i32>)
    requires
        old(a).len() == CHAIN_LEN,
        old(b).len() == CHAIN_LEN,
        c.len() == CHAIN_LEN,
    ensures
        final(b)@ == chained_b(old(b)@, c@),
        final(a)@ == chained_a(old(a)@, old(b)@, c@),
{
    let ghost a0 = a@;
    let ghost b0 = b@;
    let ghost nb = chained_b(b0, c@);
    let x = a[0].wrapping_add(b[0]);
    a.set(0, x);
    let mut i: usize = 0;
    while i < CHAIN_LEN - 1
        invariant
            0 <= i < CHAIN_LEN,
            a.len() == CHAIN_LEN,
            b.len() == CHAIN_LEN,
            c.len() == CHAIN_LEN,
            b0.len() == CHAIN_LEN,
            a0.len() == CHAIN_LEN,
            nb == chained_b(b0, c@),
            forall|k: int| 0 <= k <= i ==> b@[k] == nb[k],
            forall|k: int| i < k < CHAIN_LEN ==> b@[k] == b0[k],
            forall|k: int| 0 <= k <= i ==> a@[k] == a0[k].wrapping_add(nb[k]),
            forall|k: int| i < k < CHAIN_LEN ==> a@[k] == a0[k],
        decreases CHAIN_LEN - i,
    {
        let y = b[i + 1].wrapping_add(c[i]);
        b.set(i + 1, y);
        let x = a[i + 1].wrapping_add(b[i + 1]);
        a.set(i + 1, x);
        i = i + 1;
    }
    assert(b@ =~= nb);
    assert(a@ =~= chained_a(a0, b0, c@));
}

} // verus!
