//! Big-number arithmetic, done by OpenSSL on big-endian bytes.
//!
//! Each function of the first half hands its operands to one OpenSSL routine
//! and returns the bytes of the result. What is stated of a result is taken on
//! trust from OpenSSL's documentation. The second half lifts these to
//! `Natural`, and is verified against the first.

use crate::error::CommitmentError;
use crate::natural::{be_nat, Natural, MAX_BYTES};
use openssl::bn::{BigNum, BigNumContext};
use openssl::error::ErrorStack;
use vstd::arithmetic::power::pow;
use vstd::prelude::*;

verus! {

/// OpenSSL's error type, carried through unread.
#[verifier::external_type_specification]
#[verifier::external_body]
pub struct ExErrorStack(ErrorStack);

/// `BigNumRef::checked_add`: the result is `a + b`.
#[verifier::external_body]
fn bn_add(a: &Vec<u8>, b: &Vec<u8>) -> (r: Result<Vec<u8>, ErrorStack>)
    requires
        a@.len() <= MAX_BYTES,
        b@.len() <= MAX_BYTES,
    ensures
        r matches Ok(v) ==> be_nat(v@) == be_nat(a@) + be_nat(b@),
{
    let a = BigNum::from_slice(a)?;
    let b = BigNum::from_slice(b)?;
    let mut out = BigNum::new()?;
    out.checked_add(&a, &b)?;
    Ok(out.to_vec())
}

/// `BigNumRef::checked_sub`: the result is `a - b`, stated here where that is
/// not negative.
#[verifier::external_body]
fn bn_sub(a: &Vec<u8>, b: &Vec<u8>) -> (r: Result<Vec<u8>, ErrorStack>)
    requires
        a@.len() <= MAX_BYTES,
        b@.len() <= MAX_BYTES,
    ensures
        r matches Ok(v) ==> (be_nat(a@) >= be_nat(b@) ==> be_nat(v@) == be_nat(a@) - be_nat(b@)),
{
    let a = BigNum::from_slice(a)?;
    let b = BigNum::from_slice(b)?;
    let mut out = BigNum::new()?;
    out.checked_sub(&a, &b)?;
    Ok(out.to_vec())
}

/// `BigNumRef::checked_mul`: the result is `a * b`.
#[verifier::external_body]
fn bn_mul(a: &Vec<u8>, b: &Vec<u8>) -> (r: Result<Vec<u8>, ErrorStack>)
    requires
        a@.len() <= MAX_BYTES,
        b@.len() <= MAX_BYTES,
    ensures
        r matches Ok(v) ==> be_nat(v@) == be_nat(a@) * be_nat(b@),
{
    let mut ctx = BigNumContext::new()?;
    let a = BigNum::from_slice(a)?;
    let b = BigNum::from_slice(b)?;
    let mut out = BigNum::new()?;
    out.checked_mul(&a, &b, &mut ctx)?;
    Ok(out.to_vec())
}

/// `BigNumRef::rshift1`: the result is `a / 2`, rounded down.
#[verifier::external_body]
fn bn_rshift1(a: &Vec<u8>) -> (r: Result<Vec<u8>, ErrorStack>)
    requires
        a@.len() <= MAX_BYTES,
    ensures
        r matches Ok(v) ==> be_nat(v@) == be_nat(a@) / 2,
{
    let a = BigNum::from_slice(a)?;
    let mut out = BigNum::new()?;
    out.rshift1(&a)?;
    Ok(out.to_vec())
}

/// `BigNumRef::nnmod`: the result is `a mod m`, stated here for `m > 0`.
#[verifier::external_body]
fn bn_nnmod(a: &Vec<u8>, m: &Vec<u8>) -> (r: Result<Vec<u8>, ErrorStack>)
    requires
        a@.len() <= MAX_BYTES,
        m@.len() <= MAX_BYTES,
    ensures
        r matches Ok(v) ==> (be_nat(m@) > 0 ==> be_nat(v@) == be_nat(a@) % be_nat(m@)),
{
    let mut ctx = BigNumContext::new()?;
    let a = BigNum::from_slice(a)?;
    let m = BigNum::from_slice(m)?;
    let mut out = BigNum::new()?;
    out.nnmod(&a, &m, &mut ctx)?;
    Ok(out.to_vec())
}

/// `BigNumRef::mod_mul`: the result is `(a * b) mod m`, stated here for `m > 0`.
#[verifier::external_body]
fn bn_mod_mul(a: &Vec<u8>, b: &Vec<u8>, m: &Vec<u8>) -> (r: Result<Vec<u8>, ErrorStack>)
    requires
        a@.len() <= MAX_BYTES,
        b@.len() <= MAX_BYTES,
        m@.len() <= MAX_BYTES,
    ensures
        r matches Ok(v) ==> (be_nat(m@) > 0 ==> be_nat(v@) == (be_nat(a@) * be_nat(b@)) % be_nat(
            m@,
        )),
{
    let mut ctx = BigNumContext::new()?;
    let a = BigNum::from_slice(a)?;
    let b = BigNum::from_slice(b)?;
    let m = BigNum::from_slice(m)?;
    let mut out = BigNum::new()?;
    out.mod_mul(&a, &b, &m, &mut ctx)?;
    Ok(out.to_vec())
}

/// `BigNumRef::mod_exp`: the result is `a^e mod m`, stated here for `m > 0`.
#[verifier::external_body]
fn bn_mod_exp(a: &Vec<u8>, e: &Vec<u8>, m: &Vec<u8>) -> (r: Result<Vec<u8>, ErrorStack>)
    requires
        a@.len() <= MAX_BYTES,
        e@.len() <= MAX_BYTES,
        m@.len() <= MAX_BYTES,
    ensures
        r matches Ok(v) ==> (be_nat(m@) > 0 ==> be_nat(v@) == pow(be_nat(a@) as int, be_nat(e@))
            % (be_nat(m@) as int)),
{
    let mut ctx = BigNumContext::new()?;
    let a = BigNum::from_slice(a)?;
    let e = BigNum::from_slice(e)?;
    let m = BigNum::from_slice(m)?;
    let mut out = BigNum::new()?;
    out.mod_exp(&a, &e, &m, &mut ctx)?;
    Ok(out.to_vec())
}

/// `BigNumRef::rand_range`: a secure random number that is not negative and
/// is less than `limit`. Nothing else is known of it.
#[verifier::external_body]
fn bn_rand_range(limit: &Vec<u8>) -> (r: Result<Vec<u8>, ErrorStack>)
    requires
        limit@.len() <= MAX_BYTES,
    ensures
        r matches Ok(v) ==> be_nat(v@) < be_nat(limit@),
{
    let limit = BigNum::from_slice(limit)?;
    let mut out = BigNum::new()?;
    limit.rand_range(&mut out)?;
    Ok(out.to_vec())
}

/// `BigNumRef::generate_prime`: a random number that is probably prime, of
/// about `bits` bits; with `safe`, probably a safe prime. Nothing is taken on
/// trust of the result: the caller tests it.
#[verifier::external_body]
fn bn_generate_prime(bits: i32, safe: bool) -> (r: Result<Vec<u8>, ErrorStack>) {
    let mut out = BigNum::new()?;
    out.generate_prime(bits, safe, None, None)?;
    Ok(out.to_vec())
}

/// `BigNumRef::is_prime`: whether `n` passes `checks` rounds of the
/// Miller-Rabin test. The test draws random witnesses, so nothing is stated
/// of the answer.
#[verifier::external_body]
fn bn_is_prime(n: &Vec<u8>, checks: i32) -> (r: Result<bool, ErrorStack>)
    requires
        n@.len() <= MAX_BYTES,
{
    let mut ctx = BigNumContext::new()?;
    let n = BigNum::from_slice(n)?;
    n.is_prime(checks, &mut ctx)
}

/// What a backend call's outcome becomes: the number that the bytes denote,
/// `failure` where the backend reported an error, and `EncodingError` where it
/// returned more bytes than a `Natural` may hold.
pub fn lift_result(raw: Result<Vec<u8>, ErrorStack>, failure: CommitmentError) -> (r: Result<
    Natural,
    CommitmentError,
>)
    ensures
        match raw {
            Ok(v) => if v@.len() <= MAX_BYTES {
                r matches Ok(n) && n.wf() && n@ == be_nat(v@)
            } else {
                r == Err::<Natural, CommitmentError>(CommitmentError::EncodingError)
            },
            Err(_) => r == Err::<Natural, CommitmentError>(failure),
        },
{
    match raw {
        Ok(v) => Natural::from_be_bytes(v),
        Err(_) => Err(failure),
    }
}

/// `a + b`.
pub fn sum(a: &Natural, b: &Natural) -> (r: Result<Natural, CommitmentError>)
    requires
        a.wf(),
        b.wf(),
    ensures
        r matches Ok(n) ==> n.wf() && n@ == a@ + b@,
        r matches Err(e) ==> e == CommitmentError::EncodingError,
{
    lift_result(bn_add(a.as_bytes(), b.as_bytes()), CommitmentError::EncodingError)
}

/// `a - b`. Refused where `a < b`: a `Natural` is not negative.
pub fn difference(a: &Natural, b: &Natural) -> (r: Result<Natural, CommitmentError>)
    requires
        a.wf(),
        b.wf(),
    ensures
        r matches Ok(n) ==> n.wf() && a@ >= b@ && n@ == a@ - b@,
        r matches Err(e) ==> e == CommitmentError::EncodingError,
        a@ < b@ ==> r is Err,
{
    if a.lt(b) {
        return Err(CommitmentError::EncodingError);
    }
    lift_result(bn_sub(a.as_bytes(), b.as_bytes()), CommitmentError::EncodingError)
}

/// `a * b`.
pub fn product(a: &Natural, b: &Natural) -> (r: Result<Natural, CommitmentError>)
    requires
        a.wf(),
        b.wf(),
    ensures
        r matches Ok(n) ==> n.wf() && n@ == a@ * b@,
        r matches Err(e) ==> e == CommitmentError::EncodingError,
{
    lift_result(bn_mul(a.as_bytes(), b.as_bytes()), CommitmentError::EncodingError)
}

/// `a / 2`, rounded down.
pub fn half(a: &Natural) -> (r: Result<Natural, CommitmentError>)
    requires
        a.wf(),
    ensures
        r matches Ok(n) ==> n.wf() && n@ == a@ / 2,
        r matches Err(e) ==> e == CommitmentError::EncodingError,
{
    lift_result(bn_rshift1(a.as_bytes()), CommitmentError::EncodingError)
}

/// `a mod m`. Refused where `m` is 0.
pub fn remainder(a: &Natural, m: &Natural) -> (r: Result<Natural, CommitmentError>)
    requires
        a.wf(),
        m.wf(),
    ensures
        r matches Ok(n) ==> n.wf() && m@ > 0 && n@ == a@ % m@,
        r matches Err(e) ==> e == CommitmentError::EncodingError,
        m@ == 0 ==> r is Err,
{
    if m.is_zero() {
        return Err(CommitmentError::EncodingError);
    }
    lift_result(bn_nnmod(a.as_bytes(), m.as_bytes()), CommitmentError::EncodingError)
}

/// `(a * b) mod m`. Refused where `m` is 0.
pub fn mod_mul(a: &Natural, b: &Natural, m: &Natural) -> (r: Result<Natural, CommitmentError>)
    requires
        a.wf(),
        b.wf(),
        m.wf(),
    ensures
        r matches Ok(n) ==> n.wf() && m@ > 0 && n@ == (a@ * b@) % m@,
        r matches Err(e) ==> e == CommitmentError::EncodingError,
        m@ == 0 ==> r is Err,
{
    if m.is_zero() {
        return Err(CommitmentError::EncodingError);
    }
    lift_result(
        bn_mod_mul(a.as_bytes(), b.as_bytes(), m.as_bytes()),
        CommitmentError::EncodingError,
    )
}

/// `a^e mod m`. Refused where `m` is 0.
pub fn mod_exp(a: &Natural, e: &Natural, m: &Natural) -> (r: Result<Natural, CommitmentError>)
    requires
        a.wf(),
        e.wf(),
        m.wf(),
    ensures
        r matches Ok(n) ==> n.wf() && m@ > 0 && n@ == pow(a@ as int, e@) % (m@ as int),
        r matches Err(err) ==> err == CommitmentError::EncodingError,
        m@ == 0 ==> r is Err,
{
    if m.is_zero() {
        return Err(CommitmentError::EncodingError);
    }
    lift_result(
        bn_mod_exp(a.as_bytes(), e.as_bytes(), m.as_bytes()),
        CommitmentError::EncodingError,
    )
}

/// A secure random number below `limit`.
pub fn random_below(limit: &Natural) -> (r: Result<Natural, CommitmentError>)
    requires
        limit.wf(),
    ensures
        r matches Ok(n) ==> n.wf() && n@ < limit@,
        r matches Err(e) ==> e == CommitmentError::RandomnessError || e
            == CommitmentError::EncodingError,
{
    lift_result(bn_rand_range(limit.as_bytes()), CommitmentError::RandomnessError)
}

/// A random number of about `bits` bits that is probably a safe prime.
/// Nothing is promised of it: test it before use.
pub fn random_safe_prime(bits: i32) -> (r: Result<Natural, CommitmentError>)
    ensures
        r matches Ok(n) ==> n.wf(),
        r matches Err(e) ==> e == CommitmentError::RandomnessError || e
            == CommitmentError::EncodingError,
{
    lift_result(bn_generate_prime(bits, true), CommitmentError::RandomnessError)
}

/// The number of Miller-Rabin rounds that a primality test runs.
pub const PRIMALITY_CHECKS: i32 = 64;

/// Whether `n` passes a probabilistic primality test.
pub fn passes_primality_test(n: &Natural) -> (r: Result<bool, CommitmentError>)
    requires
        n.wf(),
    ensures
        r matches Err(e) ==> e == CommitmentError::PrimalityError,
{
    // The answer is the backend's own: the test draws random witnesses, so
    // two calls on one number may differ.
    let raw = bn_is_prime(n.as_bytes(), PRIMALITY_CHECKS);
    lift_verdict(raw)
}

/// What the outcome of a primality test becomes: the answer itself where the
/// backend gave one, and `PrimalityError` where it reported an error.
pub fn lift_verdict(raw: Result<bool, ErrorStack>) -> (r: Result<bool, CommitmentError>)
    ensures
        match raw {
            Ok(b) => r == Ok::<bool, CommitmentError>(b),
            Err(_) => r == Err::<bool, CommitmentError>(CommitmentError::PrimalityError),
        },
{
    match raw {
        Ok(b) => Ok(b),
        Err(_) => Err(CommitmentError::PrimalityError),
    }
}

} // verus!
