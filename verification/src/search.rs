//! The first position of a sequence that meets a condition.

use vstd::prelude::*;

verus! {

/// The least `i` in `0..n` with `p(i)`, where there is one.
pub open spec fn first_where(n: int, p: spec_fn(int) -> bool) -> Option<int>
    decreases n,
{
    if n <= 0 {
        None
    } else {
        match first_where(n - 1, p) {
            Some(i) => Some(i),
            None => if p(n - 1) {
                Some(n - 1)
            } else {
                None
            },
        }
    }
}

/// The position found meets the condition and none before it does; where none is found, none
/// meets it.
pub proof fn first_where_is_least(n: int, p: spec_fn(int) -> bool)
    ensures
        match first_where(n, p) {
            Some(i) => 0 <= i < n && p(i) && forall|j: int| 0 <= j < i ==> !#[trigger] p(j),
            None => forall|j: int| 0 <= j < n ==> !#[trigger] p(j),
        },
    decreases n,
{
    if n > 0 {
        first_where_is_least(n - 1, p);
    }
}

/// A position that meets the condition, with none before it that does, is the one found.
pub proof fn first_where_found(n: int, p: spec_fn(int) -> bool, k: int)
    requires
        0 <= k < n,
        p(k),
        forall|j: int| 0 <= j < k ==> !#[trigger] p(j),
    ensures
        first_where(n, p) == Some(k),
{
    first_where_is_least(n, p);
    let r = first_where(n, p);
    assert(r is Some);
    if r->0 < k {
        assert(!p(r->0));
    }
    if r->0 > k {
        assert(!p(k));
    }
}

/// Two conditions that agree on `0..n` find the same position.
pub proof fn first_where_agrees(n: int, p: spec_fn(int) -> bool, q: spec_fn(int) -> bool)
    requires
        forall|i: int| 0 <= i < n ==> #[trigger] p(i) == q(i),
    ensures
        first_where(n, p) == first_where(n, q),
    decreases n,
{
    if n > 0 {
        first_where_agrees(n - 1, p, q);
        assert(p(n - 1) == q(n - 1));
    }
}

/// A position as a mathematical integer.
pub open spec fn position(o: Option<usize>) -> Option<int> {
    match o {
        Some(i) => Some(i as int),
        None => None,
    }
}

} // verus!
