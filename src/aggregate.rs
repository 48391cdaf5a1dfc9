//! The quorum aggregator: splits the venues' outcomes into prices and errors,
//! makes the set of prices odd-sized, evicting one at random where needed, and
//! returns its median.

use crate::decimal::Price;
use crate::median::{all_wf, median, median_units, units_of};
use crate::quote::Quote;
use rand::seq::IteratorRandom;
use vstd::prelude::*;

verus! {

/// The mid-prices of the successful outcomes, in order.
pub open spec fn successes<E>(s: Seq<Result<Quote, E>>) -> Seq<Price>
    decreases s.len(),
{
    if s.len() == 0 {
        Seq::empty()
    } else {
        let rest = successes(s.drop_last());
        match s.last() {
            Ok(q) => rest.push(q.price),
            Err(_) => rest,
        }
    }
}

/// The errors of the failed outcomes, in order.
pub open spec fn failures<E>(s: Seq<Result<Quote, E>>) -> Seq<E>
    decreases s.len(),
{
    if s.len() == 0 {
        Seq::empty()
    } else {
        let rest = failures(s.drop_last());
        match s.last() {
            Ok(_) => rest,
            Err(e) => rest.push(e),
        }
    }
}

/// Every successful outcome holds a well-formed quote.
pub open spec fn quotes_wf<E>(s: Seq<Result<Quote, E>>) -> bool {
    forall|i: int| 0 <= i < s.len() ==> (#[trigger] s[i] matches Ok(q) ==> q.wf())
}

/// The held-out venue's mid-price, where it succeeded.
pub open spec fn held_price<E>(held_out: Result<Quote, E>) -> Option<Price> {
    match held_out {
        Ok(q) => Some(q.price),
        Err(_) => None,
    }
}

/// One of the other venues' prices must be evicted so that the final set has
/// an odd number of prices: an odd count is evened out before the held-out
/// price joins it, and a non-zero even count is made odd when it does not.
pub open spec fn must_evict(count: int, held_out_ok: bool) -> bool {
    if held_out_ok {
        count % 2 == 1
    } else {
        count % 2 == 0 && count > 0
    }
}

/// The final set of prices: the other venues' prices, without the one at
/// `evict` where one must go, followed by the held-out price where there is one.
pub open spec fn final_prices(others: Seq<Price>, held_out: Option<Price>, evict: int) -> Seq<
    Price,
> {
    let kept = if must_evict(others.len() as int, held_out is Some) {
        others.remove(evict)
    } else {
        others
    };
    match held_out {
        Some(p) => kept.push(p),
        None => kept,
    }
}

/// Every failure, the held-out venue's last.
pub open spec fn all_failures<E>(others: Seq<Result<Quote, E>>, held_out: Result<Quote, E>) -> Seq<
    E,
> {
    match held_out {
        Ok(_) => failures(others),
        Err(e) => failures(others).push(e),
    }
}

/// `evict` is an index that the eviction may use.
pub open spec fn valid_eviction<E>(
    others: Seq<Result<Quote, E>>,
    held_out: Result<Quote, E>,
    evict: int,
) -> bool {
    must_evict(successes(others).len() as int, held_out is Ok) ==> 0 <= evict < successes(
        others,
    ).len()
}

/// `r` is the aggregated rate of the outcomes when the eviction, if any, takes
/// the price at `evict`: the median of the final set of prices, or, where that
/// set is empty because every venue failed, the first failure.
pub open spec fn is_rate<E>(
    others: Seq<Result<Quote, E>>,
    held_out: Result<Quote, E>,
    evict: int,
    r: Result<Price, E>,
) -> bool {
    let set = final_prices(successes(others), held_price(held_out), evict);
    match r {
        Ok(p) => {
            &&& set.len() > 0
            &&& set.contains(p)
            &&& p.units() == median_units(set)
        },
        Err(e) => {
            &&& set.len() == 0
            &&& e == all_failures(others, held_out)[0]
        },
    }
}

/// Whether one price must be evicted; see `must_evict`.
pub fn needs_eviction(count: usize, held_out_ok: bool) -> (r: bool)
    ensures
        r == must_evict(count as int, held_out_ok),
{
    if held_out_ok {
        count % 2 == 1
    } else {
        count % 2 == 0 && count > 0
    }
}

/// Splits the outcomes into the mid-prices of the successes and the errors of
/// the failures, each in order.
pub fn partition<E>(outcomes: Vec<Result<Quote, E>>) -> (r: (Vec<Price>, Vec<E>))
    ensures
        r.0@ == successes(outcomes@),
        r.1@ == failures(outcomes@),
{
    let ghost all = outcomes@;
    let mut rest = outcomes;
    let mut prices: Vec<Price> = Vec::new();
    let mut errors: Vec<E> = Vec::new();
    while rest.len() > 0
        invariant
            rest.len() <= all.len(),
            rest@ == all.subrange(all.len() - rest.len(), all.len() as int),
            prices@ == successes(all.subrange(0, all.len() - rest.len())),
            errors@ == failures(all.subrange(0, all.len() - rest.len())),
        decreases rest.len(),
    {
        let ghost done = all.len() - rest.len();
        let outcome = rest.remove(0);
        proof {
            assert(all.subrange(0, done + 1).drop_last() =~= all.subrange(0, done));
            assert(all.subrange(0, done + 1).last() == outcome);
            assert(rest@ =~= all.subrange(done + 1, all.len() as int));
        }
        match outcome {
            Ok(quote) => prices.push(quote.price),
            Err(error) => errors.push(error),
        }
    }
    proof {
        assert(all.subrange(0, all.len() as int) =~= all);
    }
    (prices, errors)
}

/// The number of successful outcomes.
pub fn count_successes<E>(outcomes: &Vec<Result<Quote, E>>) -> (r: usize)
    ensures
        r == successes(outcomes@).len(),
{
    let mut n: usize = 0;
    let mut i: usize = 0;
    while i < outcomes.len()
        invariant
            i <= outcomes.len(),
            n <= i,
            n == successes(outcomes@.subrange(0, i as int)).len(),
        decreases outcomes.len() - i,
    {
        proof {
            assert(outcomes@.subrange(0, i + 1).drop_last() =~= outcomes@.subrange(0, i as int));
        }
        if outcomes[i].is_ok() {
            n = n + 1;
        }
        i = i + 1;
    }
    proof {
        assert(outcomes@.subrange(0, outcomes@.len() as int) =~= outcomes@);
    }
    n
}

/// The mid-prices of well-formed quotes are well formed.
proof fn lemma_successes_wf<E>(s: Seq<Result<Quote, E>>)
    requires
        quotes_wf(s),
    ensures
        all_wf(successes(s)),
    decreases s.len(),
{
    if s.len() > 0 {
        assert(quotes_wf(s.drop_last())) by {
            assert forall|i: int| 0 <= i < s.drop_last().len() implies (#[trigger] s.drop_last()[i]
                matches Ok(q) ==> q.wf()) by {
                assert(s.drop_last()[i] == s[i]);
            }
        }
        lemma_successes_wf(s.drop_last());
        assert(s[s.len() - 1] == s.last());
    }
}

/// Relies on rand's `IteratorRandom::choose` over the range `0..len`, drawn
/// with `thread_rng`: `None` if and only if the range is empty, and otherwise
/// one of its elements.
#[verifier::external_body]
fn random_index(len: usize) -> (r: Option<usize>)
    ensures
        r is None <==> len == 0,
        r matches Some(i) ==> i < len,
{
    (0..len).choose(&mut rand::thread_rng())
}

/// Makes the set of prices odd-sized: evicts the price at `evict` from
/// `others` where `must_evict` says so, then appends the held-out price, if
/// any.
pub fn balance(others: Vec<Price>, held_out: Option<Price>, evict: usize) -> (r: Vec<Price>)
    requires
        must_evict(others@.len() as int, held_out is Some) ==> evict < others@.len(),
    ensures
        r@ == final_prices(others@, held_out, evict as int),
        r@.len() == 0 <==> others@.len() == 0 && held_out is None,
        r@.len() > 0 ==> r@.len() % 2 == 1,
{
    let mut kept = others;
    if needs_eviction(kept.len(), held_out.is_some()) {
        kept.remove(evict);
    }
    match held_out {
        Some(p) => kept.push(p),
        None => {},
    }
    kept
}

/// Aggregates the outcomes of the venues into one rate, evicting the price at
/// `evict` where an eviction is needed. `others` are the outcomes of the
/// venues that may be evicted, in order; `held_out` is the outcome of the
/// venue that never is. The rate is the median of the final, odd-sized set of
/// prices; where every venue failed, the first failure is returned.
pub fn aggregate_with<E>(others: Vec<Result<Quote, E>>, held_out: Result<Quote, E>, evict: usize) -> (r: Result<Price, E>)
    requires
        quotes_wf(others@),
        held_out matches Ok(q) ==> q.wf(),
        valid_eviction(others@, held_out, evict as int),
    ensures
        is_rate(others@, held_out, evict as int, r),
        r is Err <==> successes(others@).len() == 0 && held_out is Err,
{
    let ghost outcomes = others@;
    proof {
        lemma_successes_wf(outcomes);
    }
    let (prices, mut errors) = partition(others);
    let held = match held_out {
        Ok(q) => Some(q.price),
        Err(e) => {
            errors.push(e);
            None
        },
    };
    let set = balance(prices, held, evict);
    if set.len() == 0 {
        Err(errors.remove(0))
    } else {
        proof {
            let others_prices = successes(outcomes);
            assert(all_wf(set@)) by {
                assert forall|i: int| 0 <= i < set@.len() implies (#[trigger] set@[i]).wf() by {
                    if held is Some && i == set@.len() - 1 {
                    } else if must_evict(others_prices.len() as int, held is Some) {
                        if i < evict {
                            assert(set@[i] == others_prices[i]);
                        } else {
                            assert(set@[i] == others_prices[i + 1]);
                        }
                    } else {
                        assert(set@[i] == others_prices[i]);
                    }
                }
            }
        }
        Ok(median(&set))
    }
}

/// Aggregates the outcomes of the venues into one rate, as `aggregate_with`
/// does, with the price to evict, where one must go, chosen uniformly at
/// random.
pub fn aggregate<E>(others: Vec<Result<Quote, E>>, held_out: Result<Quote, E>) -> (r: Result<Price, E>)
    requires
        quotes_wf(others@),
        held_out matches Ok(q) ==> q.wf(),
    ensures
        exists|evict: int|
            valid_eviction(others@, held_out, evict) && is_rate(others@, held_out, evict, r),
        r is Err <==> successes(others@).len() == 0 && held_out is Err,
{
    let count = count_successes(&others);
    let mut evict: usize = 0;
    if needs_eviction(count, held_out.is_ok()) {
        match random_index(count) {
            Some(i) => evict = i,
            None => {},
        }
    }
    let ghost outcomes = others@;
    let ghost held = held_out;
    let r = aggregate_with(others, held_out, evict);
    proof {
        assert(valid_eviction(outcomes, held, evict as int));
    }
    r
}

/// The final set of prices is odd-sized, or empty where no venue succeeded.
pub proof fn lemma_final_set_odd(others: Seq<Price>, held_out: Option<Price>, evict: int)
    requires
        must_evict(others.len() as int, held_out is Some) ==> 0 <= evict < others.len(),
    ensures
        final_prices(others, held_out, evict).len() % 2 == 1 || (others.len() == 0
            && held_out is None && final_prices(others, held_out, evict).len() == 0),
{
}

/// The rate is never an average of two prices: the final set has `2k + 1`
/// prices, and the rate is one of them, the one whose value stands at
/// position `k` once the values are sorted.
pub proof fn lemma_rate_is_middle_element<E>(
    others: Seq<Result<Quote, E>>,
    held_out: Result<Quote, E>,
    evict: int,
    rate: Price,
)
    requires
        valid_eviction(others, held_out, evict),
        is_rate(others, held_out, evict, Ok(rate)),
    ensures
        ({
            let set = final_prices(successes(others), held_price(held_out), evict);
            let k = (set.len() - 1) / 2;
            &&& set.len() == 2 * k + 1
            &&& set.contains(rate)
            &&& rate.units() == units_of(set).sort()[k]
        }),
{
    lemma_final_set_odd(successes(others), held_price(held_out), evict);
}

/// When every venue fails, the result is a failure that carries exactly one
/// of the venues' errors.
pub proof fn lemma_total_failure_surfaces_one_error<E>(
    others: Seq<Result<Quote, E>>,
    held_out: Result<Quote, E>,
    evict: int,
    r: Result<Price, E>,
)
    requires
        forall|i: int| 0 <= i < others.len() ==> (#[trigger] others[i]) is Err,
        held_out is Err,
        is_rate(others, held_out, evict, r),
    ensures
        r matches Err(e) && all_failures(others, held_out).contains(e),
{
    lemma_no_successes(others);
    let all = all_failures(others, held_out);
    if let Err(e) = r {
        assert(all.len() > 0);
        assert(all[0] == e);
    }
}

/// A sequence of failed outcomes has no successes.
proof fn lemma_no_successes<E>(s: Seq<Result<Quote, E>>)
    requires
        forall|i: int| 0 <= i < s.len() ==> (#[trigger] s[i]) is Err,
    ensures
        successes(s).len() == 0,
    decreases s.len(),
{
    if s.len() > 0 {
        assert forall|i: int| 0 <= i < s.drop_last().len() implies (#[trigger] s.drop_last()[i]) is Err by {
            assert(s.drop_last()[i] == s[i]);
        }
        lemma_no_successes(s.drop_last());
        assert(s[s.len() - 1] is Err);
    }
}

} // verus!
