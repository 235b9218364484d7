//! What holds of the scheme for every parameter set: a commitment opens with
//! its own randomness, commitments combine to a commitment to the sum, and
//! the combination of none is a commitment to 0.

use crate::commitment::{
    combined, commitment_value, opening_total, opens, product_of, GroupParameters,
};
use vstd::arithmetic::div_mod::{lemma_mod_bound, lemma_mul_mod_noop_general, lemma_small_mod};
use vstd::arithmetic::power::{lemma_pow0, lemma_pow_adds, pow};
use vstd::prelude::*;

verus! {

/// The sum of a sequence of numbers; 0 for the empty sequence.
pub open spec fn sum_of(values: Seq<nat>) -> nat
    decreases values.len(),
{
    if values.len() == 0 {
        0
    } else {
        sum_of(values.drop_last()) + values.last()
    }
}

/// The commitments to the values `xs` under the randomness `rs`, one by one.
pub open spec fn commitments_to(params: GroupParameters, xs: Seq<nat>, rs: Seq<nat>) -> Seq<nat> {
    Seq::new(xs.len(), |i: int| commitment_value(params, xs[i], rs[i]))
}

/// Whether every number of a sequence is below `q`, as the randomness that
/// `commit` draws is.
pub open spec fn all_below(rs: Seq<nat>, q: nat) -> bool {
    forall|i: int| 0 <= i < rs.len() ==> #[trigger] rs[i] < q
}

/// Openings below `q` stand for their exact sum.
pub proof fn lemma_opening_total_is_sum(rs: Seq<nat>, q: nat)
    requires
        all_below(rs, q),
    ensures
        opening_total(rs, q) == sum_of(rs),
    decreases rs.len(),
{
    if rs.len() > 0 {
        let init = rs.drop_last();
        assert(all_below(init, q)) by {
            assert forall|i: int| 0 <= i < init.len() implies #[trigger] init[i] < q by {
                assert(init[i] == rs[i]);
            }
        }
        lemma_opening_total_is_sum(init, q);
        assert(rs.last() == rs[rs.len() - 1]);
        lemma_small_mod(rs.last(), q);
    }
}

/// A commitment opens against the value committed to, with the randomness it
/// was made with.
pub proof fn lemma_round_trip(params: GroupParameters, x: nat, r: nat)
    requires
        params.valid(),
        r < params.q,
    ensures
        opens(params, commitment_value(params, x, r), x, seq![r]),
{
    let single = seq![r];
    assert(single.drop_last() =~= Seq::<nat>::empty());
    assert(single.last() == r);
    assert(opening_total(single.drop_last(), params.q) == 0);
    lemma_small_mod(r, params.q);
}

/// The product of commitments is, modulo `q`, the commitment to the sum of
/// their values under the sum of their randomness.
pub proof fn lemma_product_of_commitments(params: GroupParameters, xs: Seq<nat>, rs: Seq<nat>)
    requires
        params.q > 0,
        xs.len() == rs.len(),
    ensures
        combined(params, commitments_to(params, xs, rs)) == commitment_value(
            params,
            sum_of(xs),
            sum_of(rs),
        ),
    decreases xs.len(),
{
    let q = params.q as int;
    let g = params.g as int;
    let h = params.h as int;
    let cs = commitments_to(params, xs, rs);
    if xs.len() == 0 {
        lemma_pow0(g);
        lemma_pow0(h);
    } else {
        let xi = xs.drop_last();
        let ri = rs.drop_last();
        let ci = commitments_to(params, xi, ri);
        lemma_product_of_commitments(params, xi, ri);
        assert(cs.drop_last() =~= ci);
        let x = xs.last();
        let r = rs.last();
        assert(cs.last() == commitment_value(params, x, r));
        // the parts, before reduction
        let a = pow(g, sum_of(xi)) * pow(h, sum_of(ri));
        let b = pow(g, x) * pow(h, r);
        let whole = pow(g, sum_of(xs)) * pow(h, sum_of(rs));
        assert(whole == a * b) by {
            lemma_pow_adds(g, sum_of(xi), x);
            lemma_pow_adds(h, sum_of(ri), r);
            let gx = pow(g, sum_of(xi));
            let gy = pow(g, x);
            let hx = pow(h, sum_of(ri));
            let hy = pow(h, r);
            assert((gx * gy) * (hx * hy) == (gx * hx) * (gy * hy)) by (nonlinear_arith);
        }
        let pi = product_of(ci) as int;
        let cl = cs.last() as int;
        lemma_mod_bound(b, q);
        assert(cl == b % q);
        assert(pi % q == a % q) by {
            lemma_mod_bound(a, q);
        }
        assert((pi * cl) % q == (a * b) % q) by {
            lemma_mul_mod_noop_general(pi, cl, q);
            lemma_mul_mod_noop_general(a, b, q);
            lemma_small_mod(cl as nat, q as nat);
        }
        lemma_mod_bound(whole, q);
        assert(product_of(cs) == product_of(ci) * cs.last());
    }
}

/// Commitments made with randomness below `q` combine to a value that opens
/// against the sum of the values committed to, with the sequence of their
/// randomness.
pub proof fn lemma_homomorphism(params: GroupParameters, xs: Seq<nat>, rs: Seq<nat>)
    requires
        params.valid(),
        xs.len() == rs.len(),
        all_below(rs, params.q),
    ensures
        opens(params, combined(params, commitments_to(params, xs, rs)), sum_of(xs), rs),
{
    lemma_product_of_commitments(params, xs, rs);
    lemma_opening_total_is_sum(rs, params.q);
}

/// The combination of three commitments opens against the sum of the three
/// values, with the three random numbers in the same order.
pub proof fn lemma_homomorphism_of_three(
    params: GroupParameters,
    x1: nat,
    x2: nat,
    x3: nat,
    r1: nat,
    r2: nat,
    r3: nat,
)
    requires
        params.valid(),
        r1 < params.q,
        r2 < params.q,
        r3 < params.q,
    ensures
        opens(
            params,
            combined(
                params,
                seq![
                    commitment_value(params, x1, r1),
                    commitment_value(params, x2, r2),
                    commitment_value(params, x3, r3),
                ],
            ),
            x1 + x2 + x3,
            seq![r1, r2, r3],
        ),
{
    let xs = seq![x1, x2, x3];
    let rs = seq![r1, r2, r3];
    lemma_homomorphism(params, xs, rs);
    assert(commitments_to(params, xs, rs) =~= seq![
        commitment_value(params, x1, r1),
        commitment_value(params, x2, r2),
        commitment_value(params, x3, r3),
    ]);
    assert(sum_of(xs) == x1 + x2 + x3) by {
        assert(xs.drop_last() =~= seq![x1, x2]);
        assert(seq![x1, x2].drop_last() =~= seq![x1]);
        assert(seq![x1].drop_last() =~= Seq::<nat>::empty());
        assert(sum_of(seq![x1].drop_last()) == 0);
        assert(seq![x1].last() == x1);
        assert(sum_of(seq![x1]) == x1);
        assert(seq![x1, x2].last() == x2);
        assert(sum_of(seq![x1, x2]) == x1 + x2);
    }
}

/// The combination of no commitments is `1 mod q`, and it opens as a
/// commitment to 0 with the opening 0.
pub proof fn lemma_empty_combination(params: GroupParameters)
    requires
        params.valid(),
    ensures
        combined(params, Seq::<nat>::empty()) == 1nat % params.q,
        opens(params, combined(params, Seq::<nat>::empty()), 0, seq![0nat]),
{
    let single = seq![0nat];
    assert(single.drop_last() =~= Seq::<nat>::empty());
    assert(single.last() == 0);
    assert(opening_total(single.drop_last(), params.q) == 0);
    lemma_small_mod(0, params.q);
    lemma_pow0(params.g as int);
    lemma_pow0(params.h as int);
}

} // verus!
