//! The first place at which something holds.

use vstd::prelude::*;

verus! {

/// The least index below `n` at which `p` holds, where there is one.
pub open spec fn least(n: int, p: spec_fn(int) -> bool) -> Option<int>
    decreases n,
{
    if n <= 0 {
        None
    } else {
        match least(n - 1, p) {
            Some(k) => Some(k),
            None => if p(n - 1) {
                Some(n - 1)
            } else {
                None
            },
        }
    }
}

/// `least` finds an index at which `p` holds and before which it does not;
/// it finds none only where `p` holds nowhere below `n`.
pub proof fn lemma_least(n: int, p: spec_fn(int) -> bool)
    ensures
        match least(n, p) {
            Some(k) => 0 <= k < n && p(k) && forall|j: int| 0 <= j < k ==> !(#[trigger] p(j)),
            None => forall|j: int| 0 <= j < n ==> !(#[trigger] p(j)),
        },
    decreases n,
{
    if n > 0 {
        lemma_least(n - 1, p);
    }
}

/// An index at which `p` holds, and before which it does not, is the one
/// that `least` finds.
pub proof fn lemma_least_is(n: int, p: spec_fn(int) -> bool, k: int)
    requires
        0 <= k < n,
        p(k),
        forall|j: int| 0 <= j < k ==> !(#[trigger] p(j)),
    ensures
        least(n, p) == Some(k),
{
    lemma_least(n, p);
}

/// Where `p` holds nowhere below `n`, `least` finds nothing.
pub proof fn lemma_least_none(n: int, p: spec_fn(int) -> bool)
    requires
        forall|j: int| 0 <= j < n ==> !(#[trigger] p(j)),
    ensures
        least(n, p) is None,
{
    lemma_least(n, p);
}

} // verus!
