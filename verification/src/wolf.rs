use vstd::prelude::*;

use crate::apigw::SimpleError;
use crate::errors::Error;
use crate::errors::spec_error_message;
use crate::sheep::MAX_WEIGHT_UG;
use crate::sheep::Sheep;
use crate::shed::SheepShed;
use crate::shed::has_tattoo;
use crate::sieve::divides;
use crate::sieve::is_prime;
use crate::sieve::isqrt;
use crate::sieve::sieve_of_eratosthenes;

verus! {

/// A weight passes a list of trial divisors iff none of them divides it
/// evenly.
pub open spec fn spec_eligible(w: u64, primes: Seq<u64>) -> bool {
    forall|i: int| 0 <= i < primes.len() ==> !divides(#[trigger] primes[i] as int, w as int)
}

/// The wolf's own eligibility: no prime whose square is at most
/// `weight_upper_bound_ug` divides the weight. Those primes are exactly the
/// primes up to the square root of the bound, so for weights within the bound
/// this is a complete primality test.
pub open spec fn wolf_eligible(w: u64, weight_upper_bound_ug: u64) -> bool {
    forall|p: int| 2 <= p && p * p <= weight_upper_bound_ug && is_prime(p) ==> !(#[trigger] divides(
        p,
        w as int,
    ))
}

/// Check a weight against a list of trial divisors.
pub fn is_eligible(weight_ug: u64, primes: &Vec<u64>) -> (r: bool)
    requires
        forall|i: int| 0 <= i < primes@.len() ==> #[trigger] primes@[i] > 0,
    ensures
        r == spec_eligible(weight_ug, primes@),
{
    let mut i: usize = 0;
    while i < primes.len()
        invariant
            i <= primes@.len(),
            forall|i: int| 0 <= i < primes@.len() ==> #[trigger] primes@[i] > 0,
            forall|a: int| 0 <= a < i ==> !divides(#[trigger] primes@[a] as int, weight_ug as int),
        decreases primes@.len() - i,
    {
        if weight_ug % primes[i] == 0 {
            assert(divides(primes@[i as int] as int, weight_ug as int));
            return false;
        }
        i = i + 1;
    }
    true
}

/// The sheep a fold over `sheep` picks: the heaviest one passing `elig`,
/// where a later sheep of equal weight replaces an earlier one.
pub open spec fn spec_select(sheep: Seq<Sheep>, elig: spec_fn(u64) -> bool) -> Option<Sheep>
    decreases sheep.len(),
{
    if sheep.len() == 0 {
        None
    } else {
        let prev = spec_select(sheep.drop_last(), elig);
        let s = sheep.last();
        if elig(s.weight@) {
            match prev {
                None => Some(s),
                Some(b) => if s.weight@ >= b.weight@ {
                    Some(s)
                } else {
                    Some(b)
                },
            }
        } else {
            prev
        }
    }
}

/// Selection is sound and complete: it returns a sheep iff some sheep is
/// eligible, and what it returns is an eligible sheep of maximal weight —
/// on equal weights, the one encountered last in fold order.
pub proof fn lemma_select_max_last_wins(sheep: Seq<Sheep>, elig: spec_fn(u64) -> bool)
    ensures
        spec_select(sheep, elig) is None <==> forall|i: int|
            0 <= i < sheep.len() ==> !elig(#[trigger] sheep[i].weight@),
        match spec_select(sheep, elig) {
            Some(r) => exists|k: int|
                {
                    &&& 0 <= k < sheep.len()
                    &&& sheep[k] == r
                    &&& elig(r.weight@)
                    &&& forall|i: int|
                        0 <= i < sheep.len() && elig(#[trigger] sheep[i].weight@) ==> sheep[i].weight@
                            <= r.weight@
                    &&& forall|i: int|
                        k < i < sheep.len() && elig(#[trigger] sheep[i].weight@) ==> sheep[i].weight@
                            < r.weight@
                },
            None => true,
        },
    decreases sheep.len(),
{
    if sheep.len() > 0 {
        let head = sheep.drop_last();
        lemma_select_max_last_wins(head, elig);
        let s = sheep.last();
        assert(forall|i: int| 0 <= i < head.len() ==> head[i] == sheep[i]);
        match spec_select(sheep, elig) {
            Some(r) => {
                if elig(s.weight@) {
                    match spec_select(head, elig) {
                        None => {
                            let k = sheep.len() - 1;
                            assert(sheep[k] == r && elig(r.weight@));
                            assert(forall|i: int|
                                0 <= i < sheep.len() && elig(#[trigger] sheep[i].weight@)
                                    ==> sheep[i].weight@ <= r.weight@);
                        },
                        Some(b) => {
                            let kb = choose|k: int|
                                {
                                    &&& 0 <= k < head.len()
                                    &&& head[k] == b
                                    &&& elig(b.weight@)
                                    &&& forall|i: int|
                                        0 <= i < head.len() && elig(#[trigger] head[i].weight@)
                                            ==> head[i].weight@ <= b.weight@
                                    &&& forall|i: int|
                                        k < i < head.len() && elig(#[trigger] head[i].weight@)
                                            ==> head[i].weight@ < b.weight@
                                };
                            if s.weight@ >= b.weight@ {
                                let k = sheep.len() - 1;
                                assert(sheep[k] == r);
                            } else {
                                assert(b == r);
                                assert(0 <= kb < sheep.len() && sheep[kb] == r);
                            }
                        },
                    }
                } else {
                    let kb = choose|k: int|
                        {
                            &&& 0 <= k < head.len()
                            &&& head[k] == r
                            &&& elig(r.weight@)
                            &&& forall|i: int|
                                0 <= i < head.len() && elig(#[trigger] head[i].weight@)
                                    ==> head[i].weight@ <= r.weight@
                            &&& forall|i: int|
                                k < i < head.len() && elig(#[trigger] head[i].weight@)
                                    ==> head[i].weight@ < r.weight@
                        };
                    assert(0 <= kb < sheep.len() && sheep[kb] == r);
                }
            },
            None => {},
        }
    }
}

/// Fold over the fetched sheep and pick the target: the heaviest eligible
/// sheep, a later one winning ties.
pub fn select_sheep(sheep: &Vec<Sheep>, primes: &Vec<u64>) -> (r: Option<Sheep>)
    requires
        forall|i: int| 0 <= i < primes@.len() ==> #[trigger] primes@[i] > 0,
    ensures
        r == spec_select(sheep@, |w: u64| spec_eligible(w, primes@)),
{
    let ghost elig = |w: u64| spec_eligible(w, primes@);
    let mut best: Option<Sheep> = None;
    let mut i: usize = 0;
    while i < sheep.len()
        invariant
            i <= sheep@.len(),
            forall|i: int| 0 <= i < primes@.len() ==> #[trigger] primes@[i] > 0,
            elig == (|w: u64| spec_eligible(w, primes@)),
            best == spec_select(sheep@.take(i as int), elig),
        decreases sheep@.len() - i,
    {
        let s = sheep[i];
        proof {
            assert(sheep@.take(i + 1).drop_last() =~= sheep@.take(i as int));
            assert(sheep@.take(i + 1).last() == sheep@[i as int]);
        }
        if is_eligible(s.weight.as_ug(), primes) {
            best = match best {
                None => Some(s),
                Some(b) => if s.weight.as_ug() >= b.weight.as_ug() {
                    Some(s)
                } else {
                    Some(b)
                },
            };
        }
        i = i + 1;
    }
    proof {
        assert(sheep@.take(sheep@.len() as int) =~= sheep@);
    }
    best
}

/// What one orchestration run came to.
#[derive(Debug)]
pub enum OrchestrationOutcome {
    /// The chosen sheep, removed from the shed.
    Removed(Sheep),
    /// No sheep in the shed was eligible; nothing was touched.
    NoneEligible,
    /// The run failed; nothing was removed.
    Error(SimpleError),
}

/// Classify a failure of the post-selection removal. A missing sheep here is
/// not the ordinary not-found case: the wolf just saw the sheep, so its
/// disappearance signals a concurrent mutation, elevated to a server-class
/// code. Any other failure is classified the standard way.
pub fn classify_kill_failure(e: Error) -> (r: SimpleError)
    ensures
        match e {
            Error::SheepNotPresent(_) => r matches SimpleError::Custom { code, message } && code
                == 500 && message@ == spec_error_message(e),
            Error::GenericError(_) => r matches SimpleError::ServerError(m) && m@
                == "Please try again later"@,
            Error::SheepDuplicationError(_) => r matches SimpleError::InvalidInput(m) && m@
                == spec_error_message(e),
        },
{
    match &e {
        Error::SheepNotPresent(_) => SimpleError::Custom { code: 500, message: e.message() },
        _ => SimpleError::from_shed_error(e),
    }
}

/// The wolf's run, against a given weight upper bound: build the list of
/// primes up to the square root of the bound, fetch every sheep, pick the
/// heaviest whose weight none of those primes divides (a later sheep winning
/// ties), and remove it from the shed.
pub fn run_orchestration_with_bound<T: SheepShed>(shed: &mut T, weight_upper_bound_ug: u64) -> (r:
    OrchestrationOutcome)
    requires
        old(shed).wf(),
        weight_upper_bound_ug < usize::MAX * usize::MAX,
    ensures
        final(shed).wf(),
        match r {
            OrchestrationOutcome::Removed(s) => {
                &&& spec_select(
                    old(shed).flock(),
                    |w: u64| wolf_eligible(w, weight_upper_bound_ug),
                ) == Some(s)
                &&& wolf_eligible(s.weight@, weight_upper_bound_ug)
                &&& exists|j: int|
                    {
                        &&& 0 <= j < old(shed).flock().len()
                        &&& old(shed).flock()[j] == s
                        &&& final(shed).flock() == old(shed).flock().remove(j)
                    }
            },
            OrchestrationOutcome::NoneEligible => {
                &&& spec_select(
                    old(shed).flock(),
                    |w: u64| wolf_eligible(w, weight_upper_bound_ug),
                ) is None
                &&& final(shed).flock() == old(shed).flock()
            },
            OrchestrationOutcome::Error(e) => {
                &&& final(shed).flock() == old(shed).flock()
                &&& match e {
                    SimpleError::ServerError(m) => m@ == "Please try again later"@,
                    SimpleError::Custom { code, .. } => code == 500,
                    _ => false,
                }
            },
        },
{
    let ghost welig = |w: u64| wolf_eligible(w, weight_upper_bound_ug);

    // the eligibility computation: primes up to the square root of the bound
    let limit = isqrt(weight_upper_bound_ug);
    proof {
        assert(limit < usize::MAX) by (nonlinear_arith)
            requires
                limit * limit <= weight_upper_bound_ug < usize::MAX * usize::MAX,
                0 <= limit,
                0 < usize::MAX,
        ;
    }
    let primes = sieve_of_eratosthenes(limit);

    // the fetch: every sheep currently in the shed
    let fetched = match shed.sheep_iter() {
        Ok(v) => v,
        Err(e) => {
            return OrchestrationOutcome::Error(SimpleError::from_shed_error(e));
        },
    };

    proof {
        // the two eligibility readings agree: the sieve holds exactly the
        // primes up to the square root of the bound
        let lelig = |w: u64| spec_eligible(w, primes@);
        assert forall|w: u64| #[trigger] lelig(w) == welig(w) by {
            if lelig(w) {
                assert forall|p: int|
                    2 <= p && p * p <= weight_upper_bound_ug && is_prime(p) implies !divides(
                    p,
                    w as int,
                ) by {
                    assert(p <= limit) by (nonlinear_arith)
                        requires
                            p * p <= weight_upper_bound_ug,
                            weight_upper_bound_ug < (limit + 1) * (limit + 1),
                            2 <= p,
                            0 <= limit,
                    ;
                    assert(primes@.contains(p as u64));
                    let a = choose|a: int| 0 <= a < primes@.len() && primes@[a] == p as u64;
                    assert(!divides(primes@[a] as int, w as int));
                }
            }
            if welig(w) {
                assert forall|i: int| 0 <= i < primes@.len() implies !divides(
                    #[trigger] primes@[i] as int,
                    w as int,
                ) by {
                    let p = primes@[i] as int;
                    assert(is_prime(p) && primes@[i] <= limit);
                    assert(p * p <= weight_upper_bound_ug) by (nonlinear_arith)
                        requires
                            2 <= p <= limit,
                            limit * limit <= weight_upper_bound_ug,
                    ;
                }
            }
        }
        lemma_select_congruence(fetched@, lelig, welig);
    }

    // the join and the selection
    let target = select_sheep(&fetched, &primes);
    match target {
        None => OrchestrationOutcome::NoneEligible,
        Some(s) => {
            proof {
                lemma_select_max_last_wins(fetched@, welig);
                shed.wf_implies_distinct();
            }
            // the selected sheep is removed; its vanishing now would mean a
            // concurrent mutation
            match shed.kill_sheep(&s.tattoo) {
                Ok(dead) => {
                    proof {
                        let flock = old(shed).flock();
                        let k = choose|k: int|
                            {
                                &&& 0 <= k < flock.len()
                                &&& flock[k] == s
                                &&& welig(s.weight@)
                                &&& forall|i: int|
                                    0 <= i < flock.len() && welig(#[trigger] flock[i].weight@)
                                        ==> flock[i].weight@ <= s.weight@
                                &&& forall|i: int|
                                    k < i < flock.len() && welig(#[trigger] flock[i].weight@)
                                        ==> flock[i].weight@ < s.weight@
                            };
                        let j = choose|j: int|
                            {
                                &&& 0 <= j < flock.len()
                                &&& flock[j] == dead
                                &&& shed.flock() == flock.remove(j)
                            };
                        assert(flock[j].tattoo.0 == flock[k].tattoo.0);
                        assert(j == k);
                        assert(dead == s);
                    }
                    OrchestrationOutcome::Removed(dead)
                },
                Err(e) => {
                    proof {
                        let flock = old(shed).flock();
                        let k = choose|k: int| 0 <= k < flock.len() && flock[k] == s;
                        assert(has_tattoo(flock, s.tattoo.0));
                    }
                    OrchestrationOutcome::Error(classify_kill_failure(e))
                },
            }
        },
    }
}

/// A weight that is itself a prime number larger than every trial divisor is
/// eligible: a prime has no divisor but one and itself.
pub proof fn lemma_prime_weight_eligible(w: u64, weight_upper_bound_ug: u64)
    requires
        is_prime(w as int),
        weight_upper_bound_ug < w * w,
    ensures
        wolf_eligible(w, weight_upper_bound_ug),
{
    assert forall|p: int|
        2 <= p && p * p <= weight_upper_bound_ug && is_prime(p) implies !(#[trigger] divides(
        p,
        w as int,
    )) by {
        if divides(p, w as int) {
            if p < w {
                assert(!divides(p, w as int));
            } else if p == w {
                assert(false);
            } else {
                vstd::arithmetic::div_mod::lemma_small_mod(w as nat, p as nat);
            }
        }
    }
}

/// For a weight within the bound, the wolf's check is a complete primality
/// test: such a weight passes exactly when it is a prime number too big to
/// be its own trial divisor. A composite weight's smallest prime factor is
/// no larger than the weight's square root, so the trial divisors, the
/// primes up to the square root of the bound, always catch it.
pub proof fn lemma_eligibility_is_primality(w: u64, weight_upper_bound_ug: u64)
    requires
        2 <= w <= weight_upper_bound_ug,
    ensures
        wolf_eligible(w, weight_upper_bound_ug) <==> (is_prime(w as int) && weight_upper_bound_ug
            < w * w),
{
    if is_prime(w as int) {
        if weight_upper_bound_ug < w * w {
            lemma_prime_weight_eligible(w, weight_upper_bound_ug);
        } else {
            // the weight itself is among the trial divisors and strikes it
            vstd::arithmetic::div_mod::lemma_mod_self_0(w as int);
            assert(divides(w as int, w as int));
            if wolf_eligible(w, weight_upper_bound_ug) {
                assert(!divides(w as int, w as int));
            }
        }
    } else {
        crate::sieve::lemma_factor_below_sqrt(w as int);
        let d = choose|d: int|
            2 <= d && d * d <= w as int && d < w as int && #[trigger] divides(d, w as int);
        crate::sieve::lemma_has_prime_divisor(d);
        let p = choose|p: int| is_prime(p) && p <= d && #[trigger] divides(p, d);
        crate::sieve::lemma_divides_transitive(p, d, w as int);
        assert(p * p <= weight_upper_bound_ug) by (nonlinear_arith)
            requires
                2 <= p <= d,
                d * d <= w as int,
                w <= weight_upper_bound_ug,
        ;
        if wolf_eligible(w, weight_upper_bound_ug) {
            assert(!divides(p, w as int));
        }
    }
}

/// An even weight is ineligible whenever two is among the trial divisors,
/// that is, whenever the weight bound is at least four.
pub proof fn lemma_even_weight_ineligible(w: u64, weight_upper_bound_ug: u64)
    requires
        w % 2 == 0,
        4 <= weight_upper_bound_ug,
    ensures
        !wolf_eligible(w, weight_upper_bound_ug),
{
    assert(is_prime(2));
    assert(divides(2, w as int));
    if wolf_eligible(w, weight_upper_bound_ug) {
        assert(!divides(2, w as int));
    }
}

/// The smallest weights. One is always eligible: no number from two up
/// divides it. Zero is eligible only while the divisor list is empty (a
/// weight bound below four): every prime divides zero evenly, so as soon as
/// two is a trial divisor, zero is struck.
pub proof fn lemma_tiny_weight_eligibility(weight_upper_bound_ug: u64)
    ensures
        wolf_eligible(1, weight_upper_bound_ug),
        weight_upper_bound_ug < 4 ==> wolf_eligible(0, weight_upper_bound_ug),
        4 <= weight_upper_bound_ug ==> !wolf_eligible(0, weight_upper_bound_ug),
{
    assert forall|p: int|
        2 <= p && p * p <= weight_upper_bound_ug && is_prime(p) implies !(#[trigger] divides(
        p,
        1int,
    )) by {
        vstd::arithmetic::div_mod::lemma_small_mod(1nat, p as nat);
    }
    if weight_upper_bound_ug < 4 {
        assert forall|p: int|
            2 <= p && p * p <= weight_upper_bound_ug && is_prime(p) implies !(#[trigger] divides(
            p,
            0int,
        )) by {
            assert(4 <= p * p) by (nonlinear_arith)
                requires
                    2 <= p,
            ;
        }
    }
    if 4 <= weight_upper_bound_ug {
        assert(is_prime(2));
        vstd::arithmetic::div_mod::lemma_mod_self_0(2);
        assert(divides(2, 0int));
        if wolf_eligible(0, weight_upper_bound_ug) {
            assert(!divides(2, 0int));
        }
    }
}

/// Two pointwise-equal eligibility predicates select the same sheep.
pub proof fn lemma_select_congruence(
    sheep: Seq<Sheep>,
    e1: spec_fn(u64) -> bool,
    e2: spec_fn(u64) -> bool,
)
    requires
        forall|w: u64| #[trigger] e1(w) == e2(w),
    ensures
        spec_select(sheep, e1) == spec_select(sheep, e2),
    decreases sheep.len(),
{
    if sheep.len() > 0 {
        lemma_select_congruence(sheep.drop_last(), e1, e2);
    }
}

/// The wolf's run against the largest weight a sheep can be created with.
pub fn run_orchestration<T: SheepShed>(shed: &mut T) -> (r: OrchestrationOutcome)
    requires
        old(shed).wf(),
    ensures
        final(shed).wf(),
        match r {
            OrchestrationOutcome::Removed(s) => {
                &&& spec_select(old(shed).flock(), |w: u64| wolf_eligible(w, MAX_WEIGHT_UG))
                    == Some(s)
                &&& wolf_eligible(s.weight@, MAX_WEIGHT_UG)
                &&& exists|j: int|
                    {
                        &&& 0 <= j < old(shed).flock().len()
                        &&& old(shed).flock()[j] == s
                        &&& final(shed).flock() == old(shed).flock().remove(j)
                    }
            },
            OrchestrationOutcome::NoneEligible => {
                &&& spec_select(old(shed).flock(), |w: u64| wolf_eligible(w, MAX_WEIGHT_UG)) is None
                &&& final(shed).flock() == old(shed).flock()
            },
            OrchestrationOutcome::Error(e) => {
                &&& final(shed).flock() == old(shed).flock()
                &&& match e {
                    SimpleError::ServerError(m) => m@ == "Please try again later"@,
                    SimpleError::Custom { code, .. } => code == 500,
                    _ => false,
                }
            },
        },
{
    proof {
        assert(4294967295 <= usize::MAX);
        assert(MAX_WEIGHT_UG < usize::MAX * usize::MAX) by (nonlinear_arith)
            requires
                4294967295 <= usize::MAX,
        ;
    }
    run_orchestration_with_bound(shed, MAX_WEIGHT_UG)
}

} // verus!
