//! The Herfindahl-Hirschman index of token concentration among the largest
//! holders, in fixed point.
use vstd::prelude::*;
use crate::bignat::{BigNat, nat_add, nat_div, nat_from_u128, nat_from_u64, nat_mul};

verus! {

/// The fixed-point scale of market shares.
pub const BASE: u128 = 1_000_000_000_000;

/// A holder's squared market share, each share scaled by `BASE` and rounded down.
pub open spec fn spec_hhi(balance: nat, total: nat) -> nat {
    let d = balance * 1_000_000_000_000nat / total;
    d * d
}

/// The sum of the squared shares of `amounts`, first to last.
pub open spec fn spec_hhi_sum(amounts: Seq<nat>, total: nat) -> nat
    decreases amounts.len(),
{
    if amounts.len() == 0 {
        0
    } else {
        spec_hhi_sum(amounts.drop_last(), total) + spec_hhi(amounts.last(), total)
    }
}

/// The index: the sum of squared shares in percent squared (10000 for a single holder
/// of everything), rounded down.
pub open spec fn spec_hhi_index(amounts: Seq<nat>, total: nat) -> nat {
    spec_hhi_sum(amounts, total) * 100 * 100 / 1_000_000_000_000nat / 1_000_000_000_000nat
}

/// The amounts of a list of `(account, balance)` pairs.
pub open spec fn pair_amounts(pairs: Seq<(String, BigNat)>) -> Seq<nat> {
    pairs.map_values(|e: (String, BigNat)| e.1@)
}

/// The squared share of `balance` in `total_amount`.
pub fn hhi(balance: &BigNat, total_amount: &BigNat) -> (r: BigNat)
    requires
        total_amount@ > 0,
    ensures
        r@ == spec_hhi(balance@, total_amount@),
{
    let base = nat_from_u128(BASE);
    let scaled = nat_mul(balance, &base);
    let dominance = nat_div(&scaled, total_amount);
    nat_mul(&dominance, &dominance)
}

/// The index of the balances in `top` (pairs of account and balance)
/// against `total_supply`; with no holders it is 0 whatever the supply.
pub fn hhi_of_top_balances(top: &Vec<(String, BigNat)>, total_supply: &BigNat) -> (r: BigNat)
    requires
        top@.len() > 0 ==> total_supply@ > 0,
    ensures
        r@ == spec_hhi_index(pair_amounts(top@), total_supply@),
{
    let ghost amounts = pair_amounts(top@);
    let mut acc = nat_from_u64(0);
    let mut i: usize = 0;
    while i < top.len()
        invariant
            i <= top@.len(),
            amounts == pair_amounts(top@),
            top@.len() > 0 ==> total_supply@ > 0,
            acc@ == spec_hhi_sum(amounts.subrange(0, i as int), total_supply@),
        decreases top@.len() - i,
    {
        let term = hhi(&top[i].1, total_supply);
        proof {
            let p = amounts.subrange(0, i + 1);
            assert(p.drop_last() =~= amounts.subrange(0, i as int));
            assert(p.last() == top@[i as int].1@);
        }
        acc = nat_add(&acc, &term);
        i = i + 1;
    }
    assert(amounts.subrange(0, i as int) =~= amounts);
    let hundred = nat_from_u64(100);
    let base = nat_from_u128(BASE);
    let a = nat_mul(&acc, &hundred);
    let b = nat_mul(&a, &hundred);
    let c = nat_div(&b, &base);
    nat_div(&c, &base)
}


/// The sum of the amounts.
pub open spec fn amounts_sum(amounts: Seq<nat>) -> nat
    decreases amounts.len(),
{
    if amounts.len() == 0 {
        0
    } else {
        amounts_sum(amounts.drop_last()) + amounts.last()
    }
}

/// The sum of the scaled, rounded-down shares.
spec fn shares_sum(amounts: Seq<nat>, total: nat) -> nat
    decreases amounts.len(),
{
    if amounts.len() == 0 {
        0
    } else {
        shares_sum(amounts.drop_last(), total) + amounts.last() * 1_000_000_000_000nat / total
    }
}

proof fn lemma_shares_sum_bound(amounts: Seq<nat>, total: nat)
    requires
        total > 0,
    ensures
        shares_sum(amounts, total) * total <= amounts_sum(amounts) * 1_000_000_000_000nat,
        spec_hhi_sum(amounts, total) <= shares_sum(amounts, total) * shares_sum(amounts, total),
    decreases amounts.len(),
{
    if amounts.len() > 0 {
        let rest = amounts.drop_last();
        lemma_shares_sum_bound(rest, total);
        let x = amounts.last() * 1_000_000_000_000nat;
        let d = x / total;
        let s = shares_sum(rest, total);
        let a = amounts_sum(rest);
        let h = spec_hhi_sum(rest, total);
        assert(d * total <= x) by (nonlinear_arith)
            requires
                total > 0,
                d == x / total,
                x >= 0,
        ;
        assert(shares_sum(amounts, total) == s + d);
        assert(amounts_sum(amounts) == a + amounts.last());
        assert(spec_hhi_sum(amounts, total) == h + d * d);
        assert((s + d) * total <= (a + amounts.last()) * 1_000_000_000_000nat) by (nonlinear_arith)
            requires
                s * total <= a * 1_000_000_000_000nat,
                d * total <= x,
                x == amounts.last() * 1_000_000_000_000nat,
        ;
        assert(h + d * d <= (s + d) * (s + d)) by (nonlinear_arith)
            requires
                h <= s * s,
                s >= 0,
                d >= 0,
        ;
    } else {
        assert(shares_sum(amounts, total) == 0);
        assert(amounts_sum(amounts) == 0);
        assert(spec_hhi_sum(amounts, total) == 0);
        assert(0 * total <= 0 * 1_000_000_000_000nat) by (nonlinear_arith);
    }
}

/// While the amounts sum to at most the total, the index is at most 10000
/// (a single holder of everything).
pub proof fn law_hhi_at_most_10000(amounts: Seq<nat>, total: nat)
    requires
        total > 0,
        amounts_sum(amounts) <= total,
    ensures
        spec_hhi_index(amounts, total) <= 10000,
{
    let b: int = 1_000_000_000_000;
    lemma_shares_sum_bound(amounts, total);
    let s = shares_sum(amounts, total) as int;
    let a = amounts_sum(amounts) as int;
    let h = spec_hhi_sum(amounts, total) as int;
    let t = total as int;
    assert(a * b <= t * b) by (nonlinear_arith)
        requires
            a <= t,
            b > 0,
    ;
    assert(s <= b) by (nonlinear_arith)
        requires
            s * t <= a * b,
            a * b <= t * b,
            t > 0,
            s >= 0,
    ;
    assert(h <= b * b) by (nonlinear_arith)
        requires
            h <= s * s,
            0 <= s <= b,
    ;
    assert(h * 100 * 100 <= b * b * 10000) by (nonlinear_arith)
        requires
            0 <= h <= b * b,
    ;
    vstd::arithmetic::div_mod::lemma_div_is_ordered(h * 100 * 100, b * b * 10000, b);
    assert(b * b * 10000 / b == b * 10000) by (nonlinear_arith)
        requires
            b > 0,
    ;
    vstd::arithmetic::div_mod::lemma_div_is_ordered((h * 100 * 100) / b, b * 10000, b);
    assert(b * 10000 / b == 10000) by (nonlinear_arith)
        requires
            b > 0,
    ;
}

} // verus!
