//! Which like counts earn a milestone notification.
use vstd::prelude::*;

verus! {

/// The like counts that produce a `like_milestone` notification, in ascending order.
pub open spec fn like_milestones() -> Seq<i64> {
    seq![1i64, 5, 10, 25, 50, 100, 250, 500, 1000, 2500, 5000, 10000]
}

/// The milestone like counts, in ascending order. The first like doubles as the
/// "someone liked your comment" signal.
pub fn like_milestone_list() -> (r: Vec<i64>)
    ensures
        r@ == like_milestones(),
{
    let r: Vec<i64> = vec![1, 5, 10, 25, 50, 100, 250, 500, 1000, 2500, 5000, 10000];
    assert(r@ == like_milestones());
    r
}

/// Whether `n` likes is a milestone.
pub fn is_like_milestone(n: i64) -> (b: bool)
    ensures
        b == like_milestones().contains(n),
{
    let ms = like_milestone_list();
    let mut i: usize = 0;
    while i < ms.len()
        invariant
            i <= ms.len(),
            ms@ == like_milestones(),
            forall|j: int| 0 <= j < i ==> ms@[j] != n,
        decreases ms.len() - i,
    {
        if ms[i] == n {
            assert(ms@[i as int] == n);
            return true;
        }
        i = i + 1;
    }
    false
}

} // verus!
