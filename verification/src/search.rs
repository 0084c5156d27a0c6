//! The least index with a property.

use vstd::prelude::*;

verus! {

/// The least `i` below `n` for which `p` holds, if there is one.
pub open spec fn first_where(n: nat, p: spec_fn(int) -> bool) -> Option<int>
    decreases n,
{
    if n == 0 {
        None
    } else {
        match first_where((n - 1) as nat, p) {
            Some(i) => Some(i),
            None => if p(n - 1) {
                Some(n - 1)
            } else {
                None
            },
        }
    }
}

/// What `first_where` finds, said without recursion.
pub proof fn lemma_first_where(n: nat, p: spec_fn(int) -> bool)
    ensures
        match first_where(n, p) {
            Some(i) => 0 <= i < n && p(i) && forall|j: int| 0 <= j < i ==> !(#[trigger] p(j)),
            None => forall|j: int| 0 <= j < n ==> !(#[trigger] p(j)),
        },
    decreases n,
{
    if n > 0 {
        lemma_first_where((n - 1) as nat, p);
    }
}

/// `first_where` is the only value with its defining property.
pub proof fn lemma_first_where_is(n: nat, p: spec_fn(int) -> bool, r: Option<int>)
    requires
        match r {
            Some(i) => 0 <= i < n && p(i) && forall|j: int| 0 <= j < i ==> !(#[trigger] p(j)),
            None => forall|j: int| 0 <= j < n ==> !(#[trigger] p(j)),
        },
    ensures
        first_where(n, p) == r,
{
    lemma_first_where(n, p);
}

} // verus!
