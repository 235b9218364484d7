//! The commitment scheme: group parameters, `commit`, `open` and `add`.

use crate::backend::{
    difference, half, mod_exp, mod_mul, passes_primality_test, product, random_below,
    random_safe_prime, remainder, sum,
};
use crate::error::CommitmentError;
use crate::natural::{bit_length, lemma_bit_length_bounds, Natural};
use vstd::arithmetic::div_mod::{lemma_mod_bound, lemma_mul_mod_noop_general, lemma_small_mod};
use vstd::arithmetic::power::pow;
use vstd::arithmetic::power2::pow2;
use vstd::prelude::*;

verus! {

/// The public description of the group, as numbers: a prime `p`, the modulus
/// `q = 2p + 1`, and two generators `g` and `h`.
pub struct GroupParameters {
    pub p: nat,
    pub q: nat,
    pub g: nat,
    pub h: nat,
}

impl GroupParameters {
    /// What is checked of every parameter set: the modulus is `2p + 1`, both
    /// generators lie in `[1, p-1]`, and `h` is not 1.
    pub open spec fn valid(self) -> bool {
        &&& self.q == 2 * self.p + 1
        &&& 1 <= self.g < self.p
        &&& 1 <= self.h < self.p
        &&& self.h != 1
    }

    /// Whether `h` is a power of `g` modulo `p`: `h = g^alpha mod p` for some
    /// `alpha` in `[1, p-1]`. Generated parameters are made so, and the
    /// `alpha` used is kept nowhere.
    pub open spec fn h_from_g(self) -> bool {
        exists|alpha: nat|
            1 <= alpha < self.p && self.h == #[trigger] pow(self.g as int, alpha) % (self.p as int)
    }
}

/// The commitment to `x` under randomness `r`: `g^x * h^r mod q`.
pub open spec fn commitment_value(params: GroupParameters, x: nat, r: nat) -> nat {
    ((pow(params.g as int, x) * pow(params.h as int, r)) % (params.q as int)) as nat
}

/// The exponent of `h` that a sequence of openings stands for: each opening
/// is reduced modulo `q`, and the residues are added up. The total itself is
/// not reduced: commitments multiply, so their exponents add exactly.
pub open spec fn opening_total(openings: Seq<nat>, q: nat) -> nat
    decreases openings.len(),
{
    if openings.len() == 0 {
        0
    } else {
        opening_total(openings.drop_last(), q) + openings.last() % q
    }
}

/// Whether `c` is the commitment to `x` that `openings` open.
pub open spec fn opens(params: GroupParameters, c: nat, x: nat, openings: Seq<nat>) -> bool {
    c == commitment_value(params, x, opening_total(openings, params.q))
}

/// The product of a sequence of numbers; 1 for the empty sequence.
pub open spec fn product_of(values: Seq<nat>) -> nat
    decreases values.len(),
{
    if values.len() == 0 {
        1
    } else {
        product_of(values.drop_last()) * values.last()
    }
}

/// The combination of a sequence of commitments: their product modulo `q`.
pub open spec fn combined(params: GroupParameters, commitments: Seq<nat>) -> nat {
    product_of(commitments) % params.q
}

/// The numbers that a sequence of `Natural`s holds.
pub open spec fn values_of(numbers: Seq<&Natural>) -> Seq<nat> {
    Seq::new(numbers.len(), |i: int| numbers[i]@)
}

/// Whether every `Natural` of a sequence is well formed.
pub open spec fn all_wf(numbers: Seq<&Natural>) -> bool {
    forall|i: int| 0 <= i < numbers.len() ==> (#[trigger] numbers[i]).wf()
}

/// A uniformly random number in `[1, limit - 1]`. Refused with
/// `EncodingError` where that range is empty.
pub fn gen_random(limit: &Natural) -> (r: Result<Natural, CommitmentError>)
    requires
        limit.wf(),
    ensures
        r matches Ok(n) ==> n.wf() && 1 <= n@ < limit@,
        r matches Err(e) ==> e == CommitmentError::RandomnessError || e
            == CommitmentError::EncodingError,
        limit@ < 2 ==> r == Err::<Natural, CommitmentError>(CommitmentError::EncodingError),
{
    let one = Natural::from_u32(1);
    let two = Natural::from_u32(2);
    if limit.lt(&two) {
        return Err(CommitmentError::EncodingError);
    }
    let span = difference(limit, &one)?;
    let below = random_below(&span)?;
    sum(&below, &one)
}

/// The modulus that belongs to `p`: `2p + 1`.
pub fn calculate_q(p: &Natural) -> (r: Result<Natural, CommitmentError>)
    requires
        p.wf(),
    ensures
        r matches Ok(q) ==> q.wf() && q@ == 2 * p@ + 1,
        r matches Err(e) ==> e == CommitmentError::EncodingError,
{
    let one = Natural::from_u32(1);
    let two = Natural::from_u32(2);
    let doubled = product(p, &two)?;
    sum(&doubled, &one)
}

/// The largest security parameter taken: the modulus has `2 * security + 1`
/// bits, a count that the backend takes as an `i32`.
pub const MAX_SECURITY: i32 = 0x3fff_ffff;

/// The number of candidates that `new` draws before it gives up.
pub const MAX_ATTEMPTS: u32 = 32;

/// The security parameters that are taken.
pub open spec fn valid_security(security: i32) -> bool {
    1 <= security <= MAX_SECURITY
}

/// Whether a candidate is taken. The number drawn must be the modulus
/// `q = 2p + 1` of its half `p`, `p` must have one bit less than the `bits`
/// asked for, and both must have passed the primality test.
pub fn accepts_candidate(
    drawn: &Natural,
    p: &Natural,
    q: &Natural,
    bits: i32,
    p_passed: bool,
    q_passed: bool,
) -> (r: bool)
    requires
        drawn.wf(),
        p.wf(),
        q.wf(),
    ensures
        r == (drawn@ == q@ && bit_length(p@) + 1 == bits && p_passed && q_passed),
{
    let same = drawn.ct_eq(q);
    let length = p.bit_length();
    let fits = bits >= 1 && length == (bits - 1) as u64;
    same && fits && p_passed && q_passed
}

/// Searches for a prime `p` whose modulus `q = 2p + 1`, of `bits` bits, is
/// prime too, and returns `(p, q)`. A candidate is drawn from the backend and
/// then tested here; the search ends with `GenerationExhausted` when
/// `attempts` candidates have been refused.
pub fn find_safe_prime(bits: i32, attempts: u32) -> (r: Result<
    (Natural, Natural),
    CommitmentError,
>)
    ensures
        r matches Ok(pair) ==> {
            &&& pair.0.wf()
            &&& pair.1.wf()
            &&& pair.1@ == 2 * pair.0@ + 1
            &&& bit_length(pair.0@) + 1 == bits
            &&& attempts > 0
        },
        attempts == 0 ==> r == Err::<(Natural, Natural), CommitmentError>(
            CommitmentError::GenerationExhausted,
        ),
{
    let mut attempt: u32 = 0;
    while attempt < attempts
        invariant
            attempt <= attempts,
        decreases attempts - attempt,
    {
        let drawn = random_safe_prime(bits)?;
        let p = half(&drawn)?;
        let q = calculate_q(&p)?;
        let p_passed = passes_primality_test(&p)?;
        let q_passed = passes_primality_test(&q)?;
        if accepts_candidate(&drawn, &p, &q, bits, p_passed, q_passed) {
            return Ok((p, q));
        }
        attempt += 1;
    }
    Err(CommitmentError::GenerationExhausted)
}

/// A Pedersen commitment engine: the group parameters, and the operations
/// that commit to a value, open a commitment and combine commitments.
#[derive(Debug)]
pub struct PedersenCommitment {
    p: Natural,
    q: Natural,
    g: Natural,
    h: Natural,
}

impl View for PedersenCommitment {
    type V = GroupParameters;

    closed spec fn view(&self) -> GroupParameters {
        GroupParameters { p: self.p@, q: self.q@, g: self.g@, h: self.h@ }
    }
}

impl PedersenCommitment {
    /// Whether the four numbers held are well formed.
    pub closed spec fn numbers_wf(&self) -> bool {
        &&& self.p.wf()
        &&& self.q.wf()
        &&& self.g.wf()
        &&& self.h.wf()
    }

    /// The invariant: the four numbers are well formed and make a valid
    /// parameter set.
    pub open spec fn wf(&self) -> bool {
        &&& self.numbers_wf()
        &&& self@.valid()
    }

    /// Generates parameters for the security parameter `security`: a prime
    /// `p` of `2 * security` bits with a prime modulus `q = 2p + 1`, a random
    /// generator `g` in `[1, p-1]`, and `h = g^alpha mod p` for a random secret
    /// `alpha` in `[1, p-1]` that is dropped here and never returned.
    ///
    /// Fails with `EncodingError` where `security` is not in
    /// `[1, MAX_SECURITY]` or the backend refuses a number, with
    /// `RandomnessError` where the random source fails or the `h` drawn is
    /// 0 or 1, with `PrimalityError` where a primality test cannot be carried
    /// out, and with `GenerationExhausted` where `MAX_ATTEMPTS` candidates
    /// have been refused.
    pub fn new(security: i32) -> (r: Result<PedersenCommitment, CommitmentError>)
        ensures
            r matches Ok(pc) ==> {
                &&& pc.wf()
                &&& pc@.h_from_g()
                &&& bit_length(pc@.p) == 2 * security
                &&& pow2((2 * security - 1) as nat) <= pc@.p < pow2((2 * security) as nat)
                &&& valid_security(security)
            },
            !valid_security(security) ==> (r matches Err(e) && e == CommitmentError::EncodingError),
    {
        PedersenCommitment::with_attempts(security, MAX_ATTEMPTS)
    }

    /// As `new`, with the number of candidates that the search for a safe
    /// prime may draw. With none allowed, the search is exhausted at once.
    pub fn with_attempts(security: i32, attempts: u32) -> (r: Result<
        PedersenCommitment,
        CommitmentError,
    >)
        ensures
            r matches Ok(pc) ==> {
                &&& pc.wf()
                &&& pc@.h_from_g()
                &&& bit_length(pc@.p) == 2 * security
                &&& pow2((2 * security - 1) as nat) <= pc@.p < pow2((2 * security) as nat)
                &&& valid_security(security)
                &&& attempts > 0
            },
            !valid_security(security) ==> (r matches Err(e) && e == CommitmentError::EncodingError),
            valid_security(security) && attempts == 0 ==> (r matches Err(e) && e
                == CommitmentError::GenerationExhausted),
    {
        if security < 1 || security > MAX_SECURITY {
            return Err(CommitmentError::EncodingError);
        }
        let bits: i32 = 2 * security + 1;
        let (p, q) = find_safe_prime(bits, attempts)?;
        let g = gen_random(&p)?;
        let alpha = gen_random(&p)?;
        let h = mod_exp(&g, &alpha, &p)?;
        proof {
            lemma_mod_bound(pow(g@ as int, alpha@), p@ as int);
            lemma_bit_length_bounds(p@);
            assert(h@ == pow(g@ as int, alpha@) % (p@ as int));
        }
        PedersenCommitment::assemble(p, q, g, h)
    }

    /// Builds the parameter set from what was drawn: a prime `p` with its
    /// modulus `q`, a generator `g` in `[1, p-1]` and a power `h` of it below
    /// `p`. An `h` of 0 or 1 gives no commitment scheme, and is refused with
    /// `RandomnessError`; any other is taken.
    pub fn assemble(p: Natural, q: Natural, g: Natural, h: Natural) -> (r: Result<
        PedersenCommitment,
        CommitmentError,
    >)
        requires
            p.wf(),
            q.wf(),
            g.wf(),
            h.wf(),
            q@ == 2 * p@ + 1,
            1 <= g@ < p@,
            h@ < p@,
        ensures
            h@ >= 2 ==> (r matches Ok(pc) && pc.wf() && pc@ == (GroupParameters {
                p: p@,
                q: q@,
                g: g@,
                h: h@,
            })),
            h@ < 2 ==> r == Err::<PedersenCommitment, CommitmentError>(
                CommitmentError::RandomnessError,
            ),
    {
        let two = Natural::from_u32(2);
        if h.lt(&two) {
            return Err(CommitmentError::RandomnessError);
        }
        Ok(PedersenCommitment { p, q, g, h })
    }

    /// Takes parameters made elsewhere, such as those that the committer
    /// published. They are refused with `EncodingError` unless `q = 2p + 1`,
    /// `1 <= g < p`, `1 <= h < p` and `h != 1`, and with `PrimalityError`
    /// unless `p` and `q` both pass the primality test.
    pub fn from_parts(p: Natural, q: Natural, g: Natural, h: Natural) -> (r: Result<
        PedersenCommitment,
        CommitmentError,
    >)
        requires
            p.wf(),
            q.wf(),
            g.wf(),
            h.wf(),
        ensures
            r matches Ok(pc) ==> pc.wf() && pc@ == (GroupParameters {
                p: p@,
                q: q@,
                g: g@,
                h: h@,
            }),
            r matches Err(e) ==> e == CommitmentError::EncodingError || e
                == CommitmentError::PrimalityError,
            !(GroupParameters { p: p@, q: q@, g: g@, h: h@ }).valid() ==> (r matches Err(e) && e
                == CommitmentError::EncodingError),
    {
        let two = Natural::from_u32(2);
        let g_in_range = !g.is_zero() && g.lt(&p);
        let h_in_range = !h.lt(&two) && h.lt(&p);
        if !g_in_range || !h_in_range {
            return Err(CommitmentError::EncodingError);
        }
        let expected = calculate_q(&p)?;
        if !expected.ct_eq(&q) {
            return Err(CommitmentError::EncodingError);
        }
        let p_passed = passes_primality_test(&p)?;
        let q_passed = passes_primality_test(&q)?;
        PedersenCommitment::from_tested_parts(p, q, g, h, p_passed, q_passed)
    }

    /// Takes numbers that make a valid parameter set, with the verdicts of
    /// the primality tests of `p` and of `q`. The set is built where both
    /// passed, and refused with `PrimalityError` where either failed.
    pub fn from_tested_parts(
        p: Natural,
        q: Natural,
        g: Natural,
        h: Natural,
        p_passed: bool,
        q_passed: bool,
    ) -> (r: Result<PedersenCommitment, CommitmentError>)
        requires
            p.wf(),
            q.wf(),
            g.wf(),
            h.wf(),
            (GroupParameters { p: p@, q: q@, g: g@, h: h@ }).valid(),
        ensures
            p_passed && q_passed ==> (r matches Ok(pc) && pc.wf() && pc@ == (GroupParameters {
                p: p@,
                q: q@,
                g: g@,
                h: h@,
            })),
            !(p_passed && q_passed) ==> r == Err::<PedersenCommitment, CommitmentError>(
                CommitmentError::PrimalityError,
            ),
    {
        if !p_passed || !q_passed {
            return Err(CommitmentError::PrimalityError);
        }
        Ok(PedersenCommitment { p, q, g, h })
    }

    /// The prime `p`.
    pub fn p(&self) -> (r: &Natural)
        requires
            self.wf(),
        ensures
            r.wf(),
            r@ == self@.p,
    {
        &self.p
    }

    /// The modulus `q = 2p + 1`.
    pub fn q(&self) -> (r: &Natural)
        requires
            self.wf(),
        ensures
            r.wf(),
            r@ == self@.q,
    {
        &self.q
    }

    /// The generator `g`.
    pub fn g(&self) -> (r: &Natural)
        requires
            self.wf(),
        ensures
            r.wf(),
            r@ == self@.g,
    {
        &self.g
    }

    /// The generator `h`.
    pub fn h(&self) -> (r: &Natural)
        requires
            self.wf(),
        ensures
            r.wf(),
            r@ == self@.h,
    {
        &self.h
    }

    /// The commitment to `x` under the randomness `r`: `g^x * h^r mod q`.
    pub fn evaluate(&self, x: u32, r: &Natural) -> (res: Result<Natural, CommitmentError>)
        requires
            self.wf(),
            r.wf(),
        ensures
            res matches Ok(c) ==> c.wf() && c@ == commitment_value(self@, x as nat, r@) && c@
                < self@.q,
            res matches Err(e) ==> e == CommitmentError::EncodingError,
    {
        let x1 = Natural::from_u32(x);
        let gx = mod_exp(&self.g, &x1, &self.q)?;
        let hr = mod_exp(&self.h, r, &self.q)?;
        let c = mod_mul(&gx, &hr, &self.q)?;
        proof {
            let q = self@.q as int;
            let a = pow(self@.g as int, x as nat);
            let b = pow(self@.h as int, r@);
            lemma_mul_mod_noop_general(a, b, q);
            lemma_mod_bound(a * b, q);
        }
        Ok(c)
    }

    /// Commits to `x`: draws the randomness `r` from `[1, q-1]` and returns
    /// the commitment `c = g^x * h^r mod q` with `r`. The caller publishes `c`
    /// and keeps `r` to open it.
    pub fn commit(&self, x: u32) -> (res: Result<(Natural, Natural), CommitmentError>)
        requires
            self.wf(),
        ensures
            res matches Ok(pair) ==> {
                &&& pair.0.wf()
                &&& pair.1.wf()
                &&& 1 <= pair.1@ < self@.q
                &&& pair.0@ == commitment_value(self@, x as nat, pair.1@)
                &&& pair.0@ < self@.q
            },
            res matches Err(e) ==> e == CommitmentError::RandomnessError || e
                == CommitmentError::EncodingError,
    {
        let r = gen_random(&self.q)?;
        self.commit_with(x, r)
    }

    /// Commits to `x` under the randomness `r` that was drawn: returns
    /// `c = g^x * h^r mod q` with `r` itself. The `r` returned is the one
    /// given, whatever `x` is.
    pub fn commit_with(&self, x: u32, r: Natural) -> (res: Result<
        (Natural, Natural),
        CommitmentError,
    >)
        requires
            self.wf(),
            r.wf(),
        ensures
            res matches Ok(pair) ==> {
                &&& pair.0.wf()
                &&& pair.1.wf()
                &&& pair.1@ == r@
                &&& pair.0@ == commitment_value(self@, x as nat, r@)
                &&& pair.0@ < self@.q
            },
            res matches Err(e) ==> e == CommitmentError::EncodingError,
    {
        let c = self.evaluate(x, &r)?;
        Ok((c, r))
    }

    /// Whether `c` is a commitment to `x` that `args` open. One opening
    /// checks one commitment. Several check a combination made by `add`
    /// against the sum of the committed values: the openings are added up,
    /// each reduced modulo `q`, and `g^x * h^total mod q` is held against `c`.
    /// A mismatch is `Ok(false)`, not an error.
    pub fn open(&self, c: &Natural, x: u32, args: &[&Natural]) -> (res: Result<
        bool,
        CommitmentError,
    >)
        requires
            self.wf(),
            c.wf(),
            all_wf(args@),
        ensures
            res matches Ok(b) ==> b == opens(self@, c@, x as nat, values_of(args@)),
            res matches Err(e) ==> e == CommitmentError::EncodingError,
    {
        let mut total = Natural::zero();
        let mut i: usize = 0;
        while i < args.len()
            invariant
                self.wf(),
                all_wf(args@),
                i <= args@.len(),
                total.wf(),
                total@ == opening_total(values_of(args@).subrange(0, i as int), self@.q),
            decreases args@.len() - i,
        {
            let residue = remainder(args[i], &self.q)?;
            let next = sum(&total, &residue)?;
            proof {
                let done = values_of(args@).subrange(0, i as int);
                let more = values_of(args@).subrange(0, i as int + 1);
                assert(more.drop_last() =~= done);
                assert(more.last() == args@[i as int]@);
            }
            total = next;
            i += 1;
        }
        proof {
            assert(values_of(args@).subrange(0, i as int) =~= values_of(args@));
        }
        let expected = self.evaluate(x, &total)?;
        Ok(expected.ct_eq(c))
    }

    /// Combines commitments: their product modulo `q`, which is a commitment
    /// to the sum of their values under the sum of their randomness. The
    /// combination of no commitments is `1 mod q`, which is 1, and is
    /// returned without any arithmetic: it cannot fail.
    pub fn add(&self, cm: &[&Natural]) -> (res: Result<Natural, CommitmentError>)
        requires
            self.wf(),
            all_wf(cm@),
        ensures
            res matches Ok(c) ==> c.wf() && c@ == combined(self@, values_of(cm@)),
            res matches Err(e) ==> e == CommitmentError::EncodingError,
            cm@.len() == 0 ==> (res matches Ok(c) && c@ == 1),
    {
        let mut acc = Natural::from_u32(1);
        if cm.len() == 0 {
            proof {
                assert(values_of(cm@) =~= Seq::<nat>::empty());
                lemma_small_mod(1, self@.q);
            }
            return Ok(acc);
        }
        let mut i: usize = 0;
        while i < cm.len()
            invariant
                self.wf(),
                all_wf(cm@),
                i <= cm@.len(),
                acc.wf(),
                acc@ % self@.q == product_of(values_of(cm@).subrange(0, i as int)) % self@.q,
            decreases cm@.len() - i,
        {
            let next = mod_mul(&acc, cm[i], &self.q)?;
            proof {
                let q = self@.q as int;
                let done = values_of(cm@).subrange(0, i as int);
                let more = values_of(cm@).subrange(0, i as int + 1);
                let v = cm@[i as int]@;
                assert(more.drop_last() =~= done);
                assert(more.last() == v);
                lemma_mul_mod_noop_general(acc@ as int, v as int, q);
                lemma_mul_mod_noop_general(product_of(done) as int, v as int, q);
                lemma_mod_bound((acc@ * v) as int, q);
                lemma_small_mod(next@, self@.q);
            }
            acc = next;
            i += 1;
        }
        proof {
            assert(values_of(cm@).subrange(0, i as int) =~= values_of(cm@));
        }
        remainder(&acc, &self.q)
    }
}

} // verus!
