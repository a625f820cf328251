//! Walking a row of items that each have two measures, such as the grapheme
//! clusters of a line with their character counts and display widths: go
//! along one measure as far as a limit allows, and read off the other.

use vstd::prelude::*;

verus! {

/// The sum of the first `k` measures.
pub open spec fn prefix_sum(v: Seq<nat>, k: int) -> nat
    decreases k,
{
    if k <= 0 {
        0
    } else {
        prefix_sum(v, k - 1) + v[k - 1]
    }
}

/// The greatest count up to `k` whose measures sum to `limit` at most.
pub open spec fn fit_below(v: Seq<nat>, limit: int, k: int) -> int
    decreases k,
{
    if k <= 0 {
        0
    } else if prefix_sum(v, k) <= limit {
        k
    } else {
        fit_below(v, limit, k - 1)
    }
}

/// How many leading items fit within `limit`: the greatest count whose
/// measures sum to `limit` at most.
pub open spec fn fit(v: Seq<nat>, limit: int) -> int {
    fit_below(v, limit, v.len() as int)
}

/// The sum of `across` over the leading items that fit within `limit` along
/// `along`.
pub open spec fn span(along: Seq<nat>, across: Seq<nat>, limit: int) -> nat {
    prefix_sum(across, fit(along, limit))
}

/// Machine integers as natural numbers.
pub open spec fn nats(v: Seq<usize>) -> Seq<nat> {
    v.map_values(|x: usize| x as nat)
}

/// A longer prefix has the greater sum, or the same.
pub proof fn lemma_prefix_sum_monotone(v: Seq<nat>, a: int, b: int)
    requires
        a <= b,
    ensures
        prefix_sum(v, a) <= prefix_sum(v, b),
    decreases b - a,
{
    if a < b {
        lemma_prefix_sum_monotone(v, a, b - 1);
    }
}

/// The sums over the leading items do not depend on the items behind them.
pub proof fn lemma_prefix_sum_take(v: Seq<nat>, k: int, j: int)
    requires
        0 <= j <= k <= v.len(),
    ensures
        prefix_sum(v.take(k), j) == prefix_sum(v, j),
    decreases j,
{
    if j > 0 {
        lemma_prefix_sum_take(v, k, j - 1);
    }
}

/// `fit` is the one count whose prefix stays within the limit while the
/// next item, if there is one, would pass it.
pub proof fn lemma_fit_is(v: Seq<nat>, limit: int, k: int)
    requires
        0 <= k <= v.len(),
        prefix_sum(v, k) <= limit,
        k < v.len() ==> prefix_sum(v, k + 1) > limit,
    ensures
        fit(v, limit) == k,
{
    lemma_fit_below_is(v, limit, k, v.len() as int);
}

proof fn lemma_fit_below_is(v: Seq<nat>, limit: int, k: int, upto: int)
    requires
        0 <= k <= upto <= v.len(),
        prefix_sum(v, k) <= limit,
        k < v.len() ==> prefix_sum(v, k + 1) > limit,
    ensures
        fit_below(v, limit, upto) == k,
    decreases upto - k,
{
    if k < upto {
        lemma_prefix_sum_monotone(v, k + 1, upto);
        lemma_fit_below_is(v, limit, k, upto - 1);
    }
}

/// What `fit` returns: a count within the sequence whose prefix stays
/// within the limit, and which no greater count does.
pub proof fn lemma_fit(v: Seq<nat>, limit: int)
    requires
        0 <= limit,
    ensures
        0 <= fit(v, limit) <= v.len(),
        prefix_sum(v, fit(v, limit)) <= limit,
        forall|k: int| fit(v, limit) < k <= v.len() ==> prefix_sum(v, k) > limit,
{
    lemma_fit_below(v, limit, v.len() as int);
}

proof fn lemma_fit_below(v: Seq<nat>, limit: int, upto: int)
    requires
        0 <= limit,
        0 <= upto,
    ensures
        0 <= fit_below(v, limit, upto) <= upto,
        prefix_sum(v, fit_below(v, limit, upto)) <= limit,
        forall|k: int| fit_below(v, limit, upto) < k <= upto ==> prefix_sum(v, k) > limit,
    decreases upto,
{
    if upto > 0 && prefix_sum(v, upto) > limit {
        lemma_fit_below(v, limit, upto - 1);
    }
}

/// Going along a measure and reading off the same measure rounds the limit
/// down to a prefix sum, and rounding twice changes nothing more.
pub proof fn lemma_span_self(v: Seq<nat>, limit: int)
    requires
        0 <= limit,
    ensures
        span(v, v, limit) <= limit,
        span(v, v, span(v, v, limit) as int) == span(v, v, limit),
{
    let k = fit(v, limit);
    let reached = prefix_sum(v, k);
    lemma_fit(v, limit);
    lemma_fit(v, reached as int);
    let again = fit(v, reached as int);
    if again < k {
        assert(prefix_sum(v, k) > reached);
    } else {
        lemma_prefix_sum_monotone(v, k, again);
    }
}

/// Goes through the items in order for as long as the running total of
/// `along` stays within `limit`, and returns the running total of `across`
/// over the items passed: `None` where that total does not fit in `usize`.
pub fn span_within(along: &Vec<usize>, across: &Vec<usize>, limit: usize) -> (reached: Option<usize>)
    requires
        along.len() == across.len(),
    ensures
        match reached {
            Some(total) => total == span(nats(along@), nats(across@), limit as int),
            None => span(nats(along@), nats(across@), limit as int) > usize::MAX,
        },
{
    let ghost al = nats(along@);
    let ghost ac = nats(across@);
    let mut passed: usize = 0;
    let mut gone: usize = 0;
    let mut total: usize = 0;
    while passed < along.len()
        invariant
            al == nats(along@),
            ac == nats(across@),
            along.len() == across.len(),
            passed <= along.len(),
            gone == prefix_sum(al, passed as int),
            total == prefix_sum(ac, passed as int),
            gone <= limit,
        ensures
            passed <= along.len(),
            gone == prefix_sum(al, passed as int),
            total == prefix_sum(ac, passed as int),
            gone <= limit,
            passed < along.len() ==> prefix_sum(al, passed + 1) > limit,
        decreases along.len() - passed,
    {
        let step = along[passed];
        if step > limit - gone {
            break;
        }
        match total.checked_add(across[passed]) {
            Some(sum) => {
                total = sum;
            },
            None => {
                proof {
                    assert(prefix_sum(al, passed + 1) == gone + step);
                    lemma_fit(al, limit as int);
                    lemma_prefix_sum_monotone(ac, passed + 1, fit(al, limit as int));
                }
                return None;
            },
        }
        gone += step;
        passed += 1;
    }
    proof {
        lemma_fit_is(al, limit as int, passed as int);
    }
    Some(total)
}

} // verus!
