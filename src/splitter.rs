use vstd::prelude::*;
use vstd::arithmetic::div_mod::{lemma_fundamental_div_mod, lemma_fundamental_div_mod_converse};
use crate::wide::{base, Wide};
use crate::construction::Construction;

verus! {

/// The sum of a list of weights.
pub open spec fn sum_weights(w: Seq<u128>) -> nat
    decreases w.len(),
{
    if w.len() == 0 {
        0
    } else {
        sum_weights(w.drop_last()) + w.last() as nat
    }
}

/// The truncated share of `total` that a weight gets out of `weight_sum`.
pub open spec fn share(total: nat, weight: nat, weight_sum: nat) -> nat {
    (total * weight) / weight_sum
}

/// The sum of the truncated shares of the first `k` weights.
pub open spec fn shares_before(total: nat, w: Seq<u128>, k: int) -> nat
    decreases k,
{
    if k <= 0 {
        0
    } else {
        shares_before(total, w, k - 1) + share(total, w[k - 1] as nat, sum_weights(w))
    }
}

/// What splitting `total` by `w` gives: each weight but the last gets its
/// truncated share, and the last gets whatever is left.
pub open spec fn split_spec(total: nat, w: Seq<u128>) -> Seq<int> {
    Seq::new(
        w.len(),
        |i: int|
            if i < w.len() - 1 {
                share(total, w[i] as nat, sum_weights(w)) as int
            } else {
                total - shares_before(total, w, w.len() - 1)
            },
    )
}

/// The sum of a list of amounts.
pub open spec fn sum_amounts(s: Seq<int>) -> int
    decreases s.len(),
{
    if s.len() == 0 {
        0
    } else {
        sum_amounts(s.drop_last()) + s.last()
    }
}

proof fn lemma_sum_weights_step(w: Seq<u128>, k: int)
    requires
        0 <= k < w.len(),
    ensures
        sum_weights(w.take(k + 1)) == sum_weights(w.take(k)) + w[k] as nat,
{
    assert(w.take(k + 1).drop_last() =~= w.take(k));
}

proof fn lemma_sum_weights_prefix(w: Seq<u128>, k: int)
    requires
        0 <= k <= w.len(),
    ensures
        sum_weights(w.take(k)) <= sum_weights(w),
        sum_weights(w.take(k)) <= k * (u128::MAX as nat),
    decreases k,
{
    if k == w.len() {
        assert(w.take(k) =~= w);
    }
    if k > 0 {
        lemma_sum_weights_prefix(w, k - 1);
        lemma_sum_weights_step(w, k - 1);
        if k < w.len() {
            lemma_sum_weights_prefix_tail(w, k);
        }
    } else {
        lemma_sum_weights_prefix_tail(w, 0);
    }
}

proof fn lemma_sum_weights_prefix_tail(w: Seq<u128>, k: int)
    requires
        0 <= k <= w.len(),
    ensures
        sum_weights(w.take(k)) <= sum_weights(w),
    decreases w.len() - k,
{
    if k == w.len() {
        assert(w.take(k) =~= w);
    } else {
        lemma_sum_weights_prefix_tail(w, k + 1);
        lemma_sum_weights_step(w, k);
    }
}

proof fn lemma_shares_bound(total: nat, w: Seq<u128>, k: int)
    requires
        0 <= k <= w.len(),
        sum_weights(w) > 0,
    ensures
        shares_before(total, w, k) * sum_weights(w) <= total * sum_weights(w.take(k)),
        shares_before(total, w, k) <= total,
    decreases k,
{
    let s = sum_weights(w);
    lemma_sum_weights_prefix(w, k);
    if k > 0 {
        lemma_shares_bound(total, w, k - 1);
        lemma_sum_weights_step(w, k - 1);
        let a = total * w[k - 1] as nat;
        lemma_fundamental_div_mod(a as int, s as int);
        let sb = shares_before(total, w, k - 1);
        let sh = share(total, w[k - 1] as nat, s);
        assert(sh * s <= a) by (nonlinear_arith)
            requires
                a as int == s * sh + (a as int) % (s as int),
                (a as int) % (s as int) >= 0,
        ;
        assert((sb + sh) * s <= total * (sum_weights(w.take(k - 1)) + w[k - 1] as nat))
            by (nonlinear_arith)
            requires
                sb * s <= total * sum_weights(w.take(k - 1)),
                sh * s <= a,
                a == total * w[k - 1] as nat,
        ;
        assert(shares_before(total, w, k) == sb + sh);
    } else {
        assert(shares_before(total, w, k) == 0);
        assert(0 * s == 0) by (nonlinear_arith);
        assert(total * sum_weights(w.take(k)) >= 0) by (nonlinear_arith);
    }
    let sk = shares_before(total, w, k);
    assert(sk <= total) by (nonlinear_arith)
        requires
            sk * s <= total * sum_weights(w.take(k)),
            sum_weights(w.take(k)) <= s,
            s > 0,
    ;
}

proof fn lemma_split_prefix_sum(total: nat, w: Seq<u128>, k: int)
    requires
        0 <= k < w.len(),
    ensures
        sum_amounts(split_spec(total, w).take(k)) == shares_before(total, w, k),
    decreases k,
{
    if k > 0 {
        lemma_split_prefix_sum(total, w, k - 1);
        assert(split_spec(total, w).take(k).drop_last() =~= split_spec(total, w).take(k - 1));
    } else {
        assert(split_spec(total, w).take(0) =~= Seq::<int>::empty());
    }
}

/// Splitting is exact: for a non-empty list of weights whose sum is positive,
/// the split has one amount per weight and the amounts add up to the total.
pub proof fn lemma_split_exact(total: u128, weights: Seq<u128>)
    requires
        weights.len() > 0,
        sum_weights(weights) > 0,
    ensures
        split_spec(total as nat, weights).len() == weights.len(),
        sum_amounts(split_spec(total as nat, weights)) == total,
{
    let sp = split_spec(total as nat, weights);
    let n = weights.len() as int;
    lemma_split_prefix_sum(total as nat, weights, n - 1);
    assert(sp.drop_last() =~= sp.take(n - 1));
}

/// `(t * w) / s`, for `w <= s`, computed without leaving `u128` and [`Wide`].
fn scaled_share(w: u128, t: u128, s: Wide) -> (r: u128)
    requires
        0 < s.value(),
        w as nat <= s.value(),
        2 * s.value() < base() * base(),
    ensures
        r as nat == (t as nat * w as nat) / s.value(),
{
    let ghost sv = s.value();
    let mut pq: u128;
    let mut pr: Wide;
    if s.hi > 0 {
        assert(t as nat * 1 + 0 < sv) by (nonlinear_arith)
            requires
                sv == s.hi as nat * base() + s.lo as nat,
                s.hi > 0,
                t < base(),
        ;
        pq = 0;
        pr = Wide::from_u128(t);
        assert(pq as nat * sv + pr.value() == 1 * t as nat) by (nonlinear_arith)
            requires
                pq == 0,
                pr.value() == t,
        ;
    } else {
        pq = t / s.lo;
        pr = Wide::from_u128(t % s.lo);
        proof {
            lemma_fundamental_div_mod(t as int, s.lo as int);
        }
        assert(pq as nat * sv + pr.value() == 1 * t as nat) by (nonlinear_arith)
            requires
                sv == s.lo,
                t as int == s.lo * (t as int / s.lo as int) + (t as int % s.lo as int),
                pq == t as int / s.lo as int,
                pr.value() == t as int % s.lo as int,
        ;
    }
    let mut aq: u128 = 0;
    let mut ar = Wide::from_u128(0);
    let mut x: u128 = w;
    let ghost mut pow: nat = 1;
    let ghost mut low: nat = 0;
    while x > 0
        invariant
            sv == s.value(),
            0 < sv,
            w as nat <= sv,
            2 * sv < base() * base(),
            w as nat == x as nat * pow + low,
            low < pow,
            x > 0 ==> pow <= w,
            aq as nat * sv + ar.value() == low * t as nat,
            ar.value() < sv,
            x > 0 ==> pq as nat * sv + pr.value() == pow * t as nat,
            pr.value() < sv,
        decreases x,
    {
        let ghost old_low = low;
        if x % 2 == 1 {
            let sum = ar.add(pr);
            assert(low + pow <= w) by (nonlinear_arith)
                requires
                    w as nat == x as nat * pow + low,
                    x >= 1,
            ;
            if sum.ge(s) {
                let ghost q: int = aq + pq + 1;
                let ghost rem = (sum.value() - sv) as nat;
                assert(q * sv + rem == (low + pow) * t as nat) by (nonlinear_arith)
                    requires
                        q == aq + pq + 1,
                        rem == sum.value() - sv,
                        sum.value() == ar.value() + pr.value(),
                        aq as nat * sv + ar.value() == low * t as nat,
                        pq as nat * sv + pr.value() == pow * t as nat,
                ;
                proof {
                    lemma_quotient_bound(q, rem as int, sv as int, (low + pow) as int, t as int);
                }
                ar = sum.sub(s);
                aq = aq + pq + 1;
            } else {
                let ghost q: int = aq + pq;
                assert(q * sv + sum.value() == (low + pow) * t as nat) by (nonlinear_arith)
                    requires
                        q == aq + pq,
                        sum.value() == ar.value() + pr.value(),
                        aq as nat * sv + ar.value() == low * t as nat,
                        pq as nat * sv + pr.value() == pow * t as nat,
                ;
                proof {
                    lemma_quotient_bound(q, sum.value() as int, sv as int, (low + pow) as int, t as int);
                }
                ar = sum;
                aq = aq + pq;
            }
            proof {
                low = low + pow;
            }
        }
        let ghost old_x = x;
        x = x / 2;
        assert(w as nat == x as nat * (2 * pow) + low) by (nonlinear_arith)
            requires
                w as nat == old_x as nat * pow + old_low,
                old_x as nat == 2 * x as nat + old_x % 2,
                old_x % 2 == 1 ==> low == old_low + pow,
                old_x % 2 == 0 ==> low == old_low,
        ;
        if x > 0 {
            let d = pr.add(pr);
            assert(2 * pow <= w) by (nonlinear_arith)
                requires
                    w as nat == old_x as nat * pow + low || w as nat >= old_x as nat * pow,
                    old_x as nat >= 2 * x as nat,
                    x >= 1,
                    pow >= 1,
            ;
            if d.ge(s) {
                let ghost q: int = 2 * pq + 1;
                let ghost rem = (d.value() - sv) as nat;
                assert(q * sv + rem == (2 * pow) * t as nat) by (nonlinear_arith)
                    requires
                        q == 2 * pq + 1,
                        rem == d.value() - sv,
                        d.value() == pr.value() + pr.value(),
                        pq as nat * sv + pr.value() == pow * t as nat,
                ;
                proof {
                    lemma_quotient_bound(q, rem as int, sv as int, (2 * pow) as int, t as int);
                }
                pr = d.sub(s);
                pq = 2 * pq + 1;
            } else {
                let ghost q: int = 2 * pq;
                assert(q * sv + d.value() == (2 * pow) * t as nat) by (nonlinear_arith)
                    requires
                        q == 2 * pq,
                        d.value() == pr.value() + pr.value(),
                        pq as nat * sv + pr.value() == pow * t as nat,
                ;
                proof {
                    lemma_quotient_bound(q, d.value() as int, sv as int, (2 * pow) as int, t as int);
                }
                pr = d;
                pq = 2 * pq;
            }
        }
        proof {
            pow = 2 * pow;
        }
    }
    assert(t as nat * w as nat == aq as nat * sv + ar.value()) by (nonlinear_arith)
        requires
            w as nat == x as nat * pow + low,
            x == 0,
            aq as nat * sv + ar.value() == low * t as nat,
    ;
    proof {
        lemma_fundamental_div_mod_converse(
            (t as nat * w as nat) as int,
            sv as int,
            aq as int,
            ar.value() as int,
        );
    }
    aq
}

proof fn lemma_quotient_bound(q: int, r: int, s: int, n: int, t: int)
    requires
        q * s + r == n * t,
        0 <= r,
        0 < s,
        0 <= n <= s,
        0 <= t,
    ensures
        q <= t,
{
    assert(q <= t) by (nonlinear_arith)
        requires
            q * s + r == n * t,
            0 <= r,
            0 < s,
            0 <= n <= s,
            0 <= t,
    ;
}

} // verus!

verus! {

/// Whether a list of weights adds up to zero, that is whether every weight is zero.
pub fn weights_sum_is_zero(w: &Vec<u128>) -> (r: bool)
    ensures
        r == (sum_weights(w@) == 0),
{
    let mut i: usize = 0;
    assert(w@.take(0) =~= Seq::<u128>::empty());
    while i < w.len()
        invariant
            i <= w@.len(),
            sum_weights(w@.take(i as int)) == 0,
        decreases w@.len() - i,
    {
        proof {
            lemma_sum_weights_step(w@, i as int);
        }
        if w[i] != 0 {
            proof {
                lemma_sum_weights_prefix(w@, i as int + 1);
            }
            return false;
        }
        i = i + 1;
    }
    assert(w@.take(w@.len() as int) =~= w@);
    true
}

impl Construction {
    /// Splits `amount` by the weights `splits`: each weight but the last gets
    /// `amount * weight / sum` rounded down, and the last gets the rest.
    pub fn get_split_amounts(amount: u128, splits: &Vec<u128>) -> (r: Vec<u128>)
        requires
            splits@.len() > 0,
            sum_weights(splits@) > 0,
        ensures
            r@.len() == splits@.len(),
            forall|i: int| 0 <= i < r@.len() ==> r@[i] == split_spec(amount as nat, splits@)[i],
            sum_amounts(split_spec(amount as nat, splits@)) == amount,
    {
        let n = splits.len();
        let mut s = Wide::from_u128(0);
        let mut i: usize = 0;
        assert(splits@.take(0) =~= Seq::<u128>::empty());
        while i < n
            invariant
                i <= n,
                n == splits@.len(),
                s.value() == sum_weights(splits@.take(i as int)),
            decreases n - i,
        {
            proof {
                lemma_sum_weights_step(splits@, i as int);
                lemma_sum_weights_prefix(splits@, i as int + 1);
                assert(n as nat <= u64::MAX as nat);
                assert(sum_weights(splits@.take(i as int + 1)) < base() * base()) by (nonlinear_arith)
                    requires
                        sum_weights(splits@.take(i as int + 1)) <= (i + 1) * (u128::MAX as nat),
                        i + 1 <= u64::MAX as nat,
                        base() == u128::MAX as nat + 1,
                ;
            }
            s = s.add(Wide::from_u128(splits[i]));
            i = i + 1;
        }
        proof {
            assert(splits@.take(n as int) =~= splits@);
            lemma_sum_weights_prefix(splits@, n as int);
            assert(n as nat <= u64::MAX as nat);
            assert(2 * sum_weights(splits@) < base() * base()) by (nonlinear_arith)
                requires
                    sum_weights(splits@) <= n * (u128::MAX as nat),
                    n <= u64::MAX as nat,
                    base() == u128::MAX as nat + 1,
            ;
            lemma_shares_bound(amount as nat, splits@, n - 1);
        }
        let ghost sv = s.value();
        let mut r: Vec<u128> = Vec::new();
        let mut used: u128 = 0;
        let mut j: usize = 0;
        while j < n - 1
            invariant
                j <= n - 1,
                n == splits@.len(),
                n > 0,
                sv == s.value(),
                sv == sum_weights(splits@),
                sv > 0,
                2 * sv < base() * base(),
                r@.len() == j,
                forall|k: int| 0 <= k < j ==> r@[k] == split_spec(amount as nat, splits@)[k],
                used == shares_before(amount as nat, splits@, j as int),
            decreases n - 1 - j,
        {
            proof {
                lemma_sum_weights_step(splits@, j as int);
                lemma_sum_weights_prefix(splits@, j as int + 1);
                lemma_shares_bound(amount as nat, splits@, j as int + 1);
            }
            let sh = scaled_share(splits[j], amount, s);
            used = used + sh;
            r.push(sh);
            j = j + 1;
        }
        r.push(amount - used);
        proof {
            lemma_split_exact(amount, splits@);
        }
        r
    }
}

} // verus!
