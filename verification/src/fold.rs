//! Left-to-right traversals that stop at the first failure, as mathematical functions.

use vstd::prelude::*;

verus! {

/// Applies `step` to the indices `0..n` in order, carrying a state along. The first failure is
/// the result.
pub open spec fn try_fold<A, E>(n: nat, init: A, step: spec_fn(A, int) -> Result<A, E>) -> Result<
    A,
    E,
>
    decreases n,
{
    if n == 0 {
        Ok(init)
    } else {
        match try_fold((n - 1) as nat, init, step) {
            Err(e) => Err(e),
            Ok(state) => step(state, n - 1),
        }
    }
}

/// Once a traversal has failed, going further does not change its result.
pub proof fn lemma_failure_stays<A, E>(
    i: nat,
    n: nat,
    init: A,
    step: spec_fn(A, int) -> Result<A, E>,
)
    requires
        i <= n,
        try_fold(i, init, step) is Err,
    ensures
        try_fold(n, init, step) == try_fold(i, init, step),
    decreases n,
{
    if i < n {
        lemma_failure_stays(i, (n - 1) as nat, init, step);
    }
}

/// The indices below `n` that satisfy `keep`, in ascending order.
pub open spec fn matching(n: nat, keep: spec_fn(int) -> bool) -> Seq<int>
    decreases n,
{
    if n == 0 {
        Seq::empty()
    } else if keep(n - 1) {
        matching((n - 1) as nat, keep).push(n - 1)
    } else {
        matching((n - 1) as nat, keep)
    }
}

/// Counting finds nothing exactly when nothing matches.
pub proof fn lemma_none_match(n: nat, keep: spec_fn(int) -> bool)
    ensures
        matching(n, keep).len() <= n,
        matching(n, keep).len() == 0 <==> forall|i: int| 0 <= i < n ==> !#[trigger] keep(i),
    decreases n,
{
    if n > 0 {
        lemma_none_match((n - 1) as nat, keep);
    }
}

/// `matching` holds exactly the indices that satisfy `keep`.
pub proof fn lemma_matching(n: nat, keep: spec_fn(int) -> bool)
    ensures
        forall|k: int|
            0 <= k < matching(n, keep).len() ==> 0 <= #[trigger] matching(n, keep)[k] < n && keep(
                matching(n, keep)[k],
            ),
        forall|i: int|
            0 <= i < n && #[trigger] keep(i) ==> matching(n, keep).contains(i),
    decreases n,
{
    if n > 0 {
        lemma_matching((n - 1) as nat, keep);
        let before = matching((n - 1) as nat, keep);
        if keep(n - 1) {
            assert(matching(n, keep)[before.len() as int] == n - 1);
            assert forall|i: int| 0 <= i < n && #[trigger] keep(i) implies matching(
                n,
                keep,
            ).contains(i) by {
                if i < n - 1 {
                    let k = choose|k: int| 0 <= k < before.len() && before[k] == i;
                    assert(matching(n, keep)[k] == i);
                }
            }
        }
    }
}

/// When exactly one index matches, the list of the matching ones holds it alone.
pub proof fn lemma_single_match(n: nat, keep: spec_fn(int) -> bool, s: int)
    requires
        0 <= s < n,
        keep(s),
        forall|k: int| 0 <= k < n && k != s ==> !#[trigger] keep(k),
    ensures
        matching(n, keep) == seq![s],
    decreases n,
{
    if s == n - 1 {
        lemma_none_match((n - 1) as nat, keep);
        assert(matching(n, keep) =~= seq![s]);
    } else {
        lemma_single_match((n - 1) as nat, keep, s);
    }
}

/// A list of matching indices with one entry holds the only one that matches.
pub proof fn lemma_match_is_single(n: nat, keep: spec_fn(int) -> bool)
    requires
        matching(n, keep).len() == 1,
    ensures
        ({
            let s = matching(n, keep)[0];
            &&& 0 <= s < n
            &&& keep(s)
            &&& forall|k: int| 0 <= k < n && k != s ==> !#[trigger] keep(k)
        }),
{
    lemma_matching(n, keep);
    assert forall|k: int| 0 <= k < n && k != matching(n, keep)[0] implies !#[trigger] keep(
        k,
    ) by {
        if keep(k) {
            assert(matching(n, keep).contains(k));
        }
    }
}

/// Matching indices ascend.
pub proof fn lemma_ascending(n: nat, keep: spec_fn(int) -> bool, i: int, j: int)
    requires
        0 <= i < j < matching(n, keep).len(),
    ensures
        matching(n, keep)[i] < matching(n, keep)[j],
    decreases n,
{
    if n > 0 {
        let before = matching((n - 1) as nat, keep);
        lemma_matching((n - 1) as nat, keep);
        if j < before.len() {
            lemma_ascending((n - 1) as nat, keep, i, j);
        }
    }
}

/// The largest of the values `f` takes below `n`, or `0` when there is none.
pub open spec fn largest(n: nat, f: spec_fn(int) -> int) -> int
    decreases n,
{
    if n == 0 {
        0
    } else {
        let before = largest((n - 1) as nat, f);
        if n == 1 || f(n - 1) > before {
            f(n - 1)
        } else {
            before
        }
    }
}

/// `largest` is an upper bound that is attained.
pub proof fn lemma_largest(n: nat, f: spec_fn(int) -> int)
    ensures
        forall|i: int| 0 <= i < n ==> #[trigger] f(i) <= largest(n, f),
        n > 0 ==> exists|i: int| 0 <= i < n && #[trigger] f(i) == largest(n, f),
    decreases n,
{
    if n > 0 {
        lemma_largest((n - 1) as nat, f);
        assert(f(n - 1) <= largest(n, f));
    }
}

/// The smallest of the values `f` takes below `n`, or `0` when there is none.
pub open spec fn smallest(n: nat, f: spec_fn(int) -> int) -> int
    decreases n,
{
    if n == 0 {
        0
    } else {
        let before = smallest((n - 1) as nat, f);
        if n == 1 || f(n - 1) < before {
            f(n - 1)
        } else {
            before
        }
    }
}

} // verus!
