use pedersen_commitment::error::CommitmentError;
use pedersen_commitment::natural::{Natural, MAX_BYTES};

fn n(x: u32) -> Natural {
    Natural::from_u32(x)
}

fn bytes(v: &[u8]) -> Natural {
    Natural::from_be_bytes(v.to_vec()).unwrap()
}

#[test]
fn from_u32_gives_canonical_big_endian_bytes() {
    assert_eq!(n(0x120034).to_be_bytes(), vec![0x12, 0x00, 0x34]);
    assert_eq!(n(1).to_be_bytes(), vec![1]);
    assert_eq!(n(256).to_be_bytes(), vec![1, 0]);
    assert_eq!(n(u32::MAX).to_be_bytes(), vec![0xff, 0xff, 0xff, 0xff]);
}

#[test]
fn zero_has_no_bytes() {
    assert_eq!(n(0).to_be_bytes(), Vec::<u8>::new());
    assert_eq!(Natural::zero().to_be_bytes(), Vec::<u8>::new());
    assert!(Natural::zero().is_zero());
    assert!(n(0).is_zero());
    assert!(!n(1).is_zero());
}

#[test]
fn from_be_bytes_drops_leading_zeros() {
    let a = Natural::from_be_bytes(vec![0, 0, 1, 2]).unwrap();
    assert_eq!(a.to_be_bytes(), vec![1, 2]);
    assert!(a.ct_eq(&n(258)));
    let z = Natural::from_be_bytes(vec![0, 0, 0]).unwrap();
    assert!(z.is_zero());
    assert_eq!(z.to_be_bytes(), Vec::<u8>::new());
    let e = Natural::from_be_bytes(Vec::new()).unwrap();
    assert!(e.is_zero());
}

#[test]
fn from_be_bytes_keeps_canonical_bytes() {
    let a = Natural::from_be_bytes(vec![9, 0, 0, 0, 0, 7]).unwrap();
    assert_eq!(a.to_be_bytes(), vec![9, 0, 0, 0, 0, 7]);
}

#[test]
fn from_be_bytes_refuses_more_than_the_limit() {
    let too_long = vec![0u8; MAX_BYTES + 1];
    let r = Natural::from_be_bytes(too_long);
    assert_eq!(r.err(), Some(CommitmentError::EncodingError));
}

#[test]
fn ct_eq_compares_values() {
    assert!(n(500).ct_eq(&n(500)));
    assert!(!n(500).ct_eq(&n(501)));
    assert!(!n(1).ct_eq(&n(256)));
    assert!(!n(0x0100).ct_eq(&n(0x0200)));
    assert!(!n(0x0101).ct_eq(&n(0x0102)));
    assert!(n(0).ct_eq(&Natural::zero()));
    assert!(bytes(&[0, 5]).ct_eq(&n(5)));
}

#[test]
fn lt_orders_by_value() {
    assert!(n(5).lt(&n(7)));
    assert!(!n(7).lt(&n(5)));
    assert!(!n(7).lt(&n(7)));
    assert!(n(255).lt(&n(256)));
    assert!(!n(256).lt(&n(255)));
    assert!(n(0x0201).lt(&n(0x0300)));
    assert!(!n(0x0300).lt(&n(0x0201)));
    assert!(n(0x01ff).lt(&n(0x0200)));
    assert!(n(0x0200).lt(&n(0x0201)));
    assert!(n(0).lt(&n(1)));
    assert!(!n(0).lt(&n(0)));
    // the first difference decides, whatever follows
    assert!(bytes(&[1, 0, 0xff, 0xff]).lt(&bytes(&[1, 1, 0, 0])));
    assert!(!bytes(&[1, 1, 0, 0]).lt(&bytes(&[1, 0, 0xff, 0xff])));
}

#[test]
fn bit_length_counts_significant_bits() {
    assert_eq!(n(0).bit_length(), 0);
    assert_eq!(n(1).bit_length(), 1);
    assert_eq!(n(2).bit_length(), 2);
    assert_eq!(n(255).bit_length(), 8);
    assert_eq!(n(256).bit_length(), 9);
    assert_eq!(n(0x120034).bit_length(), 21);
    assert_eq!(n(u32::MAX).bit_length(), 32);
    assert_eq!(bytes(&[0x80, 0, 0, 0, 0, 0, 0, 0, 0]).bit_length(), 72);
}

#[test]
fn clone_keeps_the_number() {
    let a = n(0xdead_beef);
    let b = a.clone();
    assert!(a.ct_eq(&b));
    assert_eq!(a.to_be_bytes(), b.to_be_bytes());
}
