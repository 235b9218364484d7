use openssl::bn::{BigNum, BigNumContext};
use pedersen_commitment::commitment::{
    accepts_candidate, calculate_q, find_safe_prime, gen_random, PedersenCommitment,
    MAX_ATTEMPTS, MAX_SECURITY,
};
use pedersen_commitment::error::CommitmentError;
use pedersen_commitment::natural::Natural;

fn n(x: u32) -> Natural {
    Natural::from_u32(x)
}

fn is_prime(x: &Natural) -> bool {
    let mut ctx = BigNumContext::new().unwrap();
    let b = BigNum::from_slice(&x.to_be_bytes()).unwrap();
    b.is_prime(32, &mut ctx).unwrap()
}

#[test]
fn generated_parameters_are_valid() {
    for security in [16, 32, 64] {
        let pc = PedersenCommitment::new(security).unwrap();
        let one = n(1);
        assert!(calculate_q(pc.p()).unwrap().ct_eq(pc.q()));
        assert!(is_prime(pc.p()));
        assert!(is_prime(pc.q()));
        assert!(!pc.g().is_zero());
        assert!(pc.g().lt(pc.p()));
        assert!(!pc.h().is_zero());
        assert!(pc.h().lt(pc.p()));
        assert!(!pc.h().ct_eq(&one));
        assert_eq!(pc.p().bit_length(), 2 * security as u64);
        assert_eq!(pc.q().bit_length(), 2 * security as u64 + 1);
    }
}

#[test]
fn generated_parameters_differ_from_call_to_call() {
    let a = PedersenCommitment::new(64).unwrap();
    let b = PedersenCommitment::new(64).unwrap();
    assert!(!a.p().ct_eq(b.p()));
}

#[test]
fn new_refuses_a_security_parameter_out_of_range() {
    for security in [0, -1, -512, i32::MIN, MAX_SECURITY + 1, i32::MAX] {
        let r = PedersenCommitment::new(security);
        assert_eq!(r.err(), Some(CommitmentError::EncodingError), "{}", security);
    }
}

#[test]
fn search_without_attempts_is_exhausted() {
    let r = PedersenCommitment::with_attempts(16, 0);
    assert_eq!(r.err(), Some(CommitmentError::GenerationExhausted));
    let s = find_safe_prime(33, 0);
    assert_eq!(s.err(), Some(CommitmentError::GenerationExhausted));
}

#[test]
fn search_finds_a_safe_prime_pair() {
    let (p, q) = find_safe_prime(33, MAX_ATTEMPTS).unwrap();
    assert!(calculate_q(&p).unwrap().ct_eq(&q));
    assert_eq!(p.bit_length(), 32);
    assert!(is_prime(&p));
    assert!(is_prime(&q));
}

#[test]
fn with_attempts_generates_like_new() {
    let pc = PedersenCommitment::with_attempts(16, 1).unwrap();
    assert!(calculate_q(pc.p()).unwrap().ct_eq(pc.q()));
    assert_eq!(pc.p().bit_length(), 32);
}

#[test]
fn candidate_is_taken_only_when_every_test_passed() {
    // q = 23 = 2 * 11 + 1, and 11 has 4 bits
    assert!(accepts_candidate(&n(23), &n(11), &n(23), 5, true, true));
    assert!(!accepts_candidate(&n(23), &n(11), &n(23), 5, false, true));
    assert!(!accepts_candidate(&n(23), &n(11), &n(23), 5, true, false));
    assert!(!accepts_candidate(&n(23), &n(11), &n(23), 5, false, false));
    // the number drawn was even: its half gives another modulus
    assert!(!accepts_candidate(&n(22), &n(11), &n(23), 5, true, true));
    // the wrong number of bits
    assert!(!accepts_candidate(&n(23), &n(11), &n(23), 6, true, true));
    assert!(!accepts_candidate(&n(23), &n(11), &n(23), 4, true, true));
    assert!(!accepts_candidate(&n(23), &n(11), &n(23), 0, true, true));
    assert!(!accepts_candidate(&n(23), &n(11), &n(23), -3, true, true));
}

#[test]
fn calculate_q_is_twice_p_plus_one() {
    assert!(calculate_q(&n(11)).unwrap().ct_eq(&n(23)));
    assert!(calculate_q(&n(0)).unwrap().ct_eq(&n(1)));
    assert!(calculate_q(&n(1)).unwrap().ct_eq(&n(3)));
    let q = calculate_q(&n(u32::MAX)).unwrap();
    assert_eq!(q.to_be_bytes(), vec![1, 0xff, 0xff, 0xff, 0xff]);
}

#[test]
fn gen_random_stays_between_one_and_limit_minus_one() {
    let limit = n(6);
    let mut seen = [false; 6];
    for _ in 0..300 {
        let r = gen_random(&limit).unwrap();
        assert!(!r.is_zero());
        assert!(r.lt(&limit));
        seen[r.to_be_bytes()[0] as usize] = true;
    }
    assert_eq!(seen, [false, true, true, true, true, true]);
    for _ in 0..64 {
        assert!(gen_random(&n(2)).unwrap().ct_eq(&n(1)));
    }
}

#[test]
fn gen_random_refuses_an_empty_range() {
    assert_eq!(gen_random(&n(0)).err(), Some(CommitmentError::EncodingError));
    assert_eq!(gen_random(&n(1)).err(), Some(CommitmentError::EncodingError));
}

#[test]
fn from_parts_takes_valid_parameters() {
    let pc = PedersenCommitment::from_parts(n(11), n(23), n(2), n(3)).unwrap();
    assert!(pc.p().ct_eq(&n(11)));
    assert!(pc.q().ct_eq(&n(23)));
    assert!(pc.g().ct_eq(&n(2)));
    assert!(pc.h().ct_eq(&n(3)));
    assert!(PedersenCommitment::from_parts(n(11), n(23), n(1), n(2)).is_ok());
    assert!(PedersenCommitment::from_parts(n(11), n(23), n(10), n(10)).is_ok());
}

#[test]
fn from_parts_refuses_numbers_out_of_range() {
    let bad = [
        (11u32, 22u32, 2u32, 3u32),
        (11, 24, 2, 3),
        (11, 23, 0, 3),
        (11, 23, 11, 3),
        (11, 23, 12, 3),
        (11, 23, 2, 0),
        (11, 23, 2, 1),
        (11, 23, 2, 11),
        (11, 23, 2, 23),
        (0, 1, 0, 0),
        (2, 5, 1, 1),
    ];
    for (p, q, g, h) in bad {
        let r = PedersenCommitment::from_parts(n(p), n(q), n(g), n(h));
        assert_eq!(
            r.err(),
            Some(CommitmentError::EncodingError),
            "{:?}",
            (p, q, g, h)
        );
    }
}

#[test]
fn from_parts_refuses_numbers_that_fail_the_primality_test() {
    // 15 is composite; 31 is prime
    let r = PedersenCommitment::from_parts(n(15), n(31), n(2), n(3));
    assert_eq!(r.err(), Some(CommitmentError::PrimalityError));
    // 7 is prime; 15 is composite
    let r = PedersenCommitment::from_parts(n(7), n(15), n(2), n(3));
    assert_eq!(r.err(), Some(CommitmentError::PrimalityError));
}

#[test]
fn generated_parameters_can_be_taken_again() {
    let a = PedersenCommitment::new(32).unwrap();
    let b = PedersenCommitment::from_parts(
        a.p().clone(),
        a.q().clone(),
        a.g().clone(),
        a.h().clone(),
    )
    .unwrap();
    let (c, r) = a.commit(77).unwrap();
    assert_eq!(b.open(&c, 77, &[&r]), Ok(true));
    assert_eq!(b.open(&c, 78, &[&r]), Ok(false));
}

#[test]
fn assemble_takes_what_was_drawn_unless_h_is_zero_or_one() {
    let pc = PedersenCommitment::assemble(n(11), n(23), n(2), n(3)).unwrap();
    assert!(pc.p().ct_eq(&n(11)));
    assert!(pc.q().ct_eq(&n(23)));
    assert!(pc.g().ct_eq(&n(2)));
    assert!(pc.h().ct_eq(&n(3)));
    assert!(PedersenCommitment::assemble(n(11), n(23), n(1), n(2)).is_ok());
    assert!(PedersenCommitment::assemble(n(11), n(23), n(10), n(10)).is_ok());
    let r = PedersenCommitment::assemble(n(11), n(23), n(2), n(1));
    assert_eq!(r.err(), Some(CommitmentError::RandomnessError));
    let r = PedersenCommitment::assemble(n(11), n(23), n(2), n(0));
    assert_eq!(r.err(), Some(CommitmentError::RandomnessError));
}

#[test]
fn from_tested_parts_goes_by_the_two_verdicts() {
    let pc = PedersenCommitment::from_tested_parts(n(11), n(23), n(2), n(3), true, true).unwrap();
    assert!(pc.p().ct_eq(&n(11)));
    assert!(pc.q().ct_eq(&n(23)));
    assert!(pc.g().ct_eq(&n(2)));
    assert!(pc.h().ct_eq(&n(3)));
    for (p_passed, q_passed) in [(true, false), (false, true), (false, false)] {
        let r = PedersenCommitment::from_tested_parts(
            n(11),
            n(23),
            n(2),
            n(3),
            p_passed,
            q_passed,
        );
        assert_eq!(r.err(), Some(CommitmentError::PrimalityError));
    }
}

#[test]
fn generated_h_is_a_power_of_g_modulo_p() {
    // With p of 16 bits, every exponent in [1, p-1] can be tried.
    let pc = PedersenCommitment::with_attempts(8, 32);
    if let Ok(pc) = pc {
        let p = pc.p().to_be_bytes().iter().fold(0u64, |a, b| a * 256 + *b as u64);
        let g = pc.g().to_be_bytes().iter().fold(0u64, |a, b| a * 256 + *b as u64);
        let h = pc.h().to_be_bytes().iter().fold(0u64, |a, b| a * 256 + *b as u64);
        let mut power = 1u64;
        let mut found = false;
        for _ in 1..p {
            power = power * g % p;
            if power == h {
                found = true;
            }
        }
        assert!(found);
    }
}
