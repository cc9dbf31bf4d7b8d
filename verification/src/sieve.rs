use vstd::prelude::*;
use vstd::arithmetic::div_mod::lemma_fundamental_div_mod;
use vstd::arithmetic::div_mod::lemma_div_is_ordered;
use vstd::arithmetic::div_mod::lemma_mod_multiples_basic;

verus! {

/// `d` divides `k` evenly.
pub open spec fn divides(d: int, k: int) -> bool {
    k % d == 0
}

/// `p` is a prime number: at least two, and no smaller number from two up
/// divides it.
pub open spec fn is_prime(p: int) -> bool {
    &&& 2 <= p
    &&& forall|d: int| 2 <= d < p ==> !(#[trigger] divides(d, p))
}

/// `k` has already been struck from the board once every candidate below
/// `bound` has had its multiples marked: some proper divisor of `k` lies in
/// `[2, bound)`.
spec fn struck(k: int, bound: int) -> bool {
    exists|d: int| 2 <= d < bound && d < k && #[trigger] divides(d, k)
}

/// Divisibility carries over a middle term.
pub proof fn lemma_divides_transitive(e: int, d: int, k: int)
    requires
        1 <= e,
        1 <= d,
        divides(e, d),
        divides(d, k),
    ensures
        divides(e, k),
{
    let qd = d / e;
    let qk = k / d;
    lemma_fundamental_div_mod(d, e);
    lemma_fundamental_div_mod(k, d);
    assert(k == (qd * qk) * e) by (nonlinear_arith)
        requires
            d == e * qd,
            k == d * qk,
    ;
    lemma_mod_multiples_basic(qd * qk, e);
}

/// A proper multiple `k` of `i` is at least `2 * i`, and its cofactor `k / i`
/// is a proper divisor of `k` strictly between one and `k`.
proof fn lemma_cofactor(i: int, k: int)
    requires
        2 <= i,
        i < k,
        divides(i, k),
    ensures
        k == i * (k / i),
        2 <= k / i,
        k / i < k,
        divides(k / i, k),
{
    let m = k / i;
    lemma_fundamental_div_mod(k, i);
    assert(2 <= m && m < k) by (nonlinear_arith)
        requires
            k == i * m,
            2 <= i,
            i < k,
    ;
    assert(k == m * i) by (nonlinear_arith)
        requires
            k == i * m,
    ;
    lemma_mod_multiples_basic(i, m);
}

/// A multiple of `i` that lies strictly below `i * i` was already struck
/// before `i` came up: its cofactor is a smaller proper divisor.
proof fn lemma_small_multiple_struck(i: int, k: int)
    requires
        2 <= i,
        i < k,
        k < i * i,
        divides(i, k),
    ensures
        struck(k, i),
{
    lemma_cofactor(i, k);
    let m = k / i;
    assert(m < i) by (nonlinear_arith)
        requires
            k == i * m,
            k < i * i,
            2 <= i,
            0 <= m,
    ;
    assert(2 <= m < i && m < k && divides(m, k));
}

/// Multiples of a struck (composite) candidate need no marking: the witness
/// divisor of the candidate already struck them.
proof fn lemma_composite_multiple_struck(i: int, k: int)
    requires
        2 <= i,
        struck(i, i),
        i < k,
        divides(i, k),
    ensures
        struck(k, i),
{
    let e = choose|e: int| 2 <= e < i && e < i && #[trigger] divides(e, i);
    lemma_divides_transitive(e, i, k);
    assert(2 <= e < i && e < k && divides(e, k));
}

/// Every composite number has a proper divisor no larger than its square
/// root.
pub proof fn lemma_factor_below_sqrt(k: int)
    requires
        2 <= k,
        !is_prime(k),
    ensures
        exists|d: int| 2 <= d && d * d <= k && d < k && #[trigger] divides(d, k),
{
    let d = choose|d: int| 2 <= d < k && #[trigger] divides(d, k);
    if d * d <= k {
        assert(2 <= d && d * d <= k && d < k && divides(d, k));
    } else {
        lemma_cofactor(d, k);
        let m = k / d;
        assert(m * m <= k) by (nonlinear_arith)
            requires
                k == d * m,
                d * d > k,
                2 <= m,
                2 <= d,
        ;
        assert(2 <= m && m * m <= k && m < k && divides(m, k));
    }
}

/// Every number from two up has a prime divisor.
pub proof fn lemma_has_prime_divisor(n: int)
    requires
        2 <= n,
    ensures
        exists|p: int| is_prime(p) && p <= n && #[trigger] divides(p, n),
    decreases n,
{
    if is_prime(n) {
        lemma_mod_multiples_basic(1, n);
        assert(divides(n, n));
    } else {
        let d = choose|d: int| 2 <= d < n && #[trigger] divides(d, n);
        lemma_has_prime_divisor(d);
        let p = choose|p: int| is_prime(p) && p <= d && #[trigger] divides(p, d);
        lemma_divides_transitive(p, d, n);
        assert(is_prime(p) && p <= n && divides(p, n));
    }
}

/// The integer square root: the largest number whose square does not exceed
/// `n`.
pub fn isqrt(n: u64) -> (r: u64)
    ensures
        r * r <= n,
        n < (r + 1) * (r + 1),
        r <= 4294967295,
{
    let mut lo: u64 = 0;
    let mut hi: u64 = 4294967295;
    while lo < hi
        invariant
            lo <= hi <= 4294967295,
            lo * lo <= n,
            n < (hi + 1) * (hi + 1),
        decreases hi - lo,
    {
        let mid: u64 = lo + (hi - lo + 1) / 2;
        assert(lo < mid <= hi);
        assert(mid * mid < 18446744073709551615) by (nonlinear_arith)
            requires
                mid <= 4294967295,
        ;
        if mid * mid <= n {
            lo = mid;
        } else {
            hi = mid - 1;
        }
    }
    lo
}

/// The ascending list of all the primes between zero and `n`, built with a
/// sieve of Eratosthenes.
///
/// The result holds exactly the primes up to `n`: every entry is prime and at
/// most `n`, every prime at most `n` appears, and entries strictly ascend.
pub fn sieve_of_eratosthenes(n: u64) -> (r: Vec<u64>)
    requires
        n < usize::MAX,
    ensures
        forall|a: int| 0 <= a < r@.len() ==> is_prime(#[trigger] r@[a] as int) && r@[a] <= n,
        forall|a: int, b: int| 0 <= a < b < r@.len() ==> r@[a] < r@[b],
        forall|p: int| 2 <= p <= n && is_prime(p) ==> r@.contains(p as u64),
{
    if n < 2 {
        return Vec::new();
    }
    let n_usize = n as usize;

    // One flag for every number from 0 to n; a number still flagged when the
    // marking is over is prime.
    let mut tmp: Vec<bool> = Vec::new();
    let cap: usize = n_usize + 1;
    while tmp.len() < cap
        invariant
            forall|a: int| 0 <= a < tmp@.len() ==> tmp@[a] == true,
            tmp@.len() <= cap,
        decreases cap - tmp.len(),
    {
        tmp.push(true);
    }
    // Zero and one are not primes.
    tmp[0] = false;
    tmp[1] = false;

    let sqrt_n = isqrt(n);
    proof {
        assert(sqrt_n <= n) by (nonlinear_arith)
            requires
                sqrt_n * sqrt_n <= n,
                2 <= n,
        ;
        assert(1 <= sqrt_n) by (nonlinear_arith)
            requires
                n < (sqrt_n + 1) * (sqrt_n + 1),
                2 <= n,
                0 <= sqrt_n,
        ;
    }
    let sqrt_n_us = sqrt_n as usize;

    let mut i: usize = 2;
    while i <= sqrt_n_us
        invariant
            2 <= n,
            n_usize == n < usize::MAX,
            sqrt_n_us == sqrt_n,
            sqrt_n * sqrt_n <= n < (sqrt_n + 1) * (sqrt_n + 1),
            sqrt_n <= n,
            2 <= i <= sqrt_n_us + 1,
            tmp@.len() == n_usize + 1,
            tmp@[0] == false,
            tmp@[1] == false,
            forall|k: int| 2 <= k <= n ==> (tmp@[k] <==> !struck(k, i as int)),
        decreases sqrt_n_us + 1 - i,
    {
        if tmp[i] {
            let ghost gi = i as int;
            let mut m: usize = i;
            proof {
                assert(gi * m == gi * gi);
                assert(i * i <= n) by (nonlinear_arith)
                    requires
                        i <= sqrt_n,
                        sqrt_n * sqrt_n <= n,
                        0 <= i,
                ;
                vstd::arithmetic::div_mod::lemma_div_by_multiple(gi, gi);
                lemma_div_is_ordered(gi * gi, n as int, gi);
                assert(i <= (n as int) / gi);
            }
            while m <= n_usize / i
                invariant
                    2 <= n,
                    n_usize == n < usize::MAX,
                    2 <= i <= n_usize,
                    i <= m <= n_usize / i + 1,
                    tmp@.len() == n_usize + 1,
                    tmp@[0] == false,
                    tmp@[1] == false,
                    forall|k: int| 2 <= k <= n ==> (tmp@[k] <==> (!struck(k, i as int)
                        && !(divides(i as int, k) && i * i <= k < i * m))),
                decreases n_usize / i + 1 - m,
            {
                proof {
                    let gn = n as int;
                    let gi = i as int;
                    lemma_fundamental_div_mod(gn, gi);
                    assert(i * m <= n) by (nonlinear_arith)
                        requires
                            m <= (n as int) / (i as int),
                            n as int == (i as int) * ((n as int) / (i as int)) + (n as int) % (
                            i as int),
                            0 <= (n as int) % (i as int),
                            2 <= i,
                    ;
                }
                let j: usize = i * m;
                let ghost old_tmp = tmp@;
                tmp[j] = false;
                proof {
                    lemma_mod_multiples_basic(m as int, i as int);
                    assert(divides(i as int, (i * m) as int)) by {
                        assert((m * i) % (i as int) == 0);
                        assert(m * i == i * m) by (nonlinear_arith);
                    }
                    assert forall|k: int| 2 <= k <= n implies (tmp@[k] <==> (!struck(
                        k,
                        i as int,
                    ) && !(divides(i as int, k) && i * i <= k < i * (m + 1)))) by {
                        let gi = i as int;
                        let gm = m as int;
                        assert(gi * gm < gi * (gm + 1)) by (nonlinear_arith)
                            requires
                                2 <= gi,
                        ;
                        if k == gi * gm {
                            assert(!tmp@[k]);
                            assert(gi * gi <= k && k < gi * (gm + 1)) by (nonlinear_arith)
                                requires
                                    k == gi * gm,
                                    2 <= gi <= gm,
                            ;
                        } else {
                            assert(tmp@[k] == old_tmp[k]);
                            if divides(gi, k) && gi * gi <= k < gi * (gm + 1) && !(k < gi * gm) {
                                // the only fresh index in the widened range is i * m itself
                                lemma_fundamental_div_mod(k, gi);
                                assert(k == gi * gm) by (nonlinear_arith)
                                    requires
                                        k == gi * (k / gi) + k % gi,
                                        k % gi == 0,
                                        gi * gm <= k < gi * (gm + 1),
                                        2 <= gi,
                                ;
                                assert(false);
                            }
                        }
                    }
                }
                m = m + 1;
            }
            proof {
                let gi = i as int;
                let gm = m as int;
                // every multiple of i up to n now lies below i * m
                assert forall|k: int| 2 <= k <= n implies (tmp@[k] <==> !struck(k, gi + 1)) by {
                    if divides(gi, k) && gi * gi <= k {
                        lemma_fundamental_div_mod(k, gi);
                        lemma_div_is_ordered(k, n as int, gi);
                        assert(k < gi * gm) by (nonlinear_arith)
                            requires
                                k == gi * (k / gi) + k % gi,
                                k % gi == 0,
                                k / gi <= (n as int) / gi,
                                gm == (n as int) / gi + 1,
                                2 <= gi,
                        ;
                    }
                    // bridge between the marked range and the struck predicate
                    if tmp@[k] {
                        if struck(k, gi + 1) {
                            let d = choose|d: int|
                                2 <= d < gi + 1 && d < k && #[trigger] divides(d, k);
                            if d < gi {
                                assert(struck(k, gi));
                            } else {
                                assert(d == gi);
                                if k < gi * gi {
                                    lemma_small_multiple_struck(gi, k);
                                } else {
                                    assert(divides(gi, k) && gi * gi <= k);
                                }
                            }
                            assert(false);
                        }
                    } else {
                        if !struck(k, gi + 1) {
                            if struck(k, gi) {
                                let d = choose|d: int|
                                    2 <= d < gi && d < k && #[trigger] divides(d, k);
                                assert(2 <= d < gi + 1 && d < k && divides(d, k));
                                assert(false);
                            } else {
                                assert(divides(gi, k) && gi * gi <= k);
                                assert(gi < gi * gi) by (nonlinear_arith)
                                    requires
                                        2 <= gi,
                                ;
                                assert(2 <= gi < gi + 1 && gi < k && divides(gi, k));
                                assert(struck(k, gi + 1));
                                assert(false);
                            }
                        }
                    }
                }
            }
        } else {
            proof {
                let gi = i as int;
                assert(struck(gi, gi));
                assert forall|k: int| 2 <= k <= n implies (tmp@[k] <==> !struck(k, gi + 1)) by {
                    if struck(k, gi) {
                        let d = choose|d: int| 2 <= d < gi && d < k && #[trigger] divides(d, k);
                        assert(2 <= d < gi + 1 && d < k && divides(d, k));
                        assert(struck(k, gi + 1));
                    }
                    if struck(k, gi + 1) {
                        let d = choose|d: int| 2 <= d < gi + 1 && d < k && #[trigger] divides(d, k);
                        if d < gi {
                            assert(struck(k, gi));
                        } else {
                            assert(d == gi);
                            lemma_composite_multiple_struck(gi, k);
                        }
                    }
                }
            }
        }
        i = i + 1;
    }

    proof {
        // once candidates up to the square root are done, the flags read as
        // primality itself
        assert forall|k: int| 0 <= k <= n implies (tmp@[k] <==> is_prime(k)) by {
            if k <= 1 {
                assert(!tmp@[k]);
                assert(!is_prime(k));
            } else {
                if is_prime(k) {
                    if struck(k, i as int) {
                        let d = choose|d: int|
                            2 <= d < i as int && d < k && #[trigger] divides(d, k);
                        assert(!divides(d, k));
                        assert(false);
                    }
                } else {
                    lemma_factor_below_sqrt(k);
                    let d = choose|d: int| 2 <= d && d * d <= k && d < k && #[trigger] divides(d, k);
                    assert(d <= sqrt_n) by (nonlinear_arith)
                        requires
                            d * d <= k <= n,
                            n < (sqrt_n + 1) * (sqrt_n + 1),
                            2 <= d,
                            0 <= sqrt_n,
                    ;
                    assert(2 <= d < i as int && d < k && divides(d, k));
                    assert(struck(k, i as int));
                }
            }
        }
    }

    // gather the surviving flags, in ascending order
    let mut result: Vec<u64> = Vec::new();
    let mut idx: usize = 0;
    while idx <= n_usize
        invariant
            n_usize == n < usize::MAX,
            tmp@.len() == n_usize + 1,
            idx <= n_usize + 1,
            forall|k: int| 0 <= k <= n ==> (tmp@[k] <==> is_prime(k)),
            forall|a: int| 0 <= a < result@.len() ==> is_prime(#[trigger] result@[a] as int)
                && result@[a] <= n && result@[a] < idx,
            forall|a: int, b: int| 0 <= a < b < result@.len() ==> result@[a] < result@[b],
            forall|p: int| 2 <= p < idx && is_prime(p) ==> result@.contains(p as u64),
        decreases n_usize + 1 - idx,
    {
        if tmp[idx] {
            let ghost old_result = result@;
            result.push(idx as u64);
            proof {
                assert forall|p: int| 2 <= p < idx + 1 && is_prime(p) implies #[trigger] result@
                    .contains(p as u64) by {
                    if p < idx {
                        assert(old_result.contains(p as u64));
                        let a = choose|a: int|
                            0 <= a < old_result.len() && old_result[a] == p as u64;
                        assert(result@[a] == p as u64);
                    } else {
                        assert(result@[old_result.len() as int] == idx as u64);
                    }
                }
            }
        }
        idx = idx + 1;
    }
    result
}

} // verus!
