//! What it means that a list is selected from another one.
use vstd::prelude::*;

verus! {

/// `at` holds, in increasing order, the positions of exactly the good items.
pub open spec fn picked_at<A>(at: Seq<int>, all: Seq<A>, good: spec_fn(A) -> bool) -> bool {
    &&& forall|k: int|
        0 <= k < at.len() ==> 0 <= #[trigger] at[k] < all.len() && good(all[at[k]])
    &&& forall|j: int, k: int| 0 <= j < k < at.len() ==> at[j] < at[k]
    &&& forall|i: int| 0 <= i < all.len() && good(#[trigger] all[i]) ==> at.contains(i)
}

/// `out` is made of exactly the good items of `all`, one for one and in their
/// order.
pub open spec fn is_selection<A, B>(
    out: Seq<B>,
    all: Seq<A>,
    good: spec_fn(A) -> bool,
    make: spec_fn(A) -> B,
) -> bool {
    exists|at: Seq<int>| #[trigger]
        picked_at(at, all, good) && out.len() == at.len() && forall|k: int|
            0 <= k < out.len() ==> #[trigger] out[k] == make(all[at[k]])
}

/// Nothing is selected from nothing.
pub proof fn lemma_select_none<A, B>(
    out: Seq<B>,
    all: Seq<A>,
    good: spec_fn(A) -> bool,
    make: spec_fn(A) -> B,
)
    requires
        all.len() == 0,
        out.len() == 0,
    ensures
        is_selection(out, all, good, make),
{
    assert(picked_at(Seq::<int>::empty(), all, good));
}

/// A selection goes on with the last item if that is good.
pub proof fn lemma_select_step<A, B>(
    out: Seq<B>,
    all: Seq<A>,
    good: spec_fn(A) -> bool,
    make: spec_fn(A) -> B,
)
    requires
        all.len() > 0,
        is_selection(out, all.drop_last(), good, make),
    ensures
        good(all.last()) ==> is_selection(out.push(make(all.last())), all, good, make),
        !good(all.last()) ==> is_selection(out, all, good, make),
{
    let rest = all.drop_last();
    let at = choose|at: Seq<int>| #[trigger]
        picked_at(at, rest, good) && out.len() == at.len() && forall|k: int|
            0 <= k < out.len() ==> #[trigger] out[k] == make(rest[at[k]]);
    let n = all.len() - 1;
    let next = if good(all.last()) {
        at.push(n)
    } else {
        at
    };
    assert forall|k: int| 0 <= k < next.len() implies 0 <= #[trigger] next[k] < all.len() && good(
        all[next[k]],
    ) by {
        if k < at.len() {
            assert(next[k] == at[k]);
            assert(all[at[k]] == rest[at[k]]);
        }
    }
    assert forall|j: int, k: int| 0 <= j < k < next.len() implies next[j] < next[k] by {
        if k < at.len() {
            assert(at[j] < at[k]);
        } else {
            assert(next[j] == at[j]);
        }
    }
    assert forall|i: int| 0 <= i < all.len() && good(#[trigger] all[i]) implies next.contains(
        i,
    ) by {
        if i < n {
            assert(rest[i] == all[i]);
            assert(at.contains(i));
            let k = choose|k: int| 0 <= k < at.len() && at[k] == i;
            assert(next[k] == i);
        } else {
            assert(next[at.len() as int] == i);
        }
    }
    assert(picked_at(next, all, good));
    let grown = if good(all.last()) {
        out.push(make(all.last()))
    } else {
        out
    };
    assert forall|k: int| 0 <= k < grown.len() implies #[trigger] grown[k] == make(
        all[next[k]],
    ) by {
        if k < out.len() {
            assert(out[k] == make(rest[at[k]]));
            assert(all[at[k]] == rest[at[k]]);
        }
    }
}

/// What stands in a selection: what is made of the good items, and nothing else.
pub proof fn lemma_selection_members<A, B>(
    out: Seq<B>,
    all: Seq<A>,
    good: spec_fn(A) -> bool,
    make: spec_fn(A) -> B,
)
    requires
        is_selection(out, all, good, make),
    ensures
        forall|i: int| 0 <= i < all.len() && good(#[trigger] all[i]) ==> out.contains(make(all[i])),
        forall|b: B| #[trigger]
            out.contains(b) ==> exists|i: int|
                0 <= i < all.len() && good(#[trigger] all[i]) && b == make(all[i]),
        out.len() <= all.len(),
{
    let at = choose|at: Seq<int>| #[trigger]
        picked_at(at, all, good) && out.len() == at.len() && forall|k: int|
            0 <= k < out.len() ==> #[trigger] out[k] == make(all[at[k]]);
    assert forall|i: int| 0 <= i < all.len() && good(#[trigger] all[i]) implies out.contains(
        make(all[i]),
    ) by {
        let k = choose|k: int| 0 <= k < at.len() && at[k] == i;
        assert(out[k] == make(all[i]));
    }
    assert forall|b: B| #[trigger] out.contains(b) implies exists|i: int|
        0 <= i < all.len() && good(#[trigger] all[i]) && b == make(all[i]) by {
        let k = choose|k: int| 0 <= k < out.len() && out[k] == b;
        assert(good(all[at[k]]));
    }
    lemma_increasing(at, all.len(), at.len() as int);
}

proof fn lemma_increasing(at: Seq<int>, bound: nat, n: int)
    requires
        0 <= n <= at.len(),
        forall|k: int| 0 <= k < at.len() ==> 0 <= #[trigger] at[k] < bound,
        forall|j: int, k: int| 0 <= j < k < at.len() ==> at[j] < at[k],
    ensures
        n <= bound,
        n > 0 ==> at[n - 1] >= n - 1,
    decreases n,
{
    if n > 0 {
        lemma_increasing(at, bound, n - 1);
        assert(at[n - 1] < bound);
        if n > 1 {
            assert(at[n - 2] < at[n - 1]);
        }
    }
}

} // verus!
