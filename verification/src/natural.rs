//! Non-negative integers of arbitrary size, held as big-endian bytes.

use crate::error::CommitmentError;
use vstd::arithmetic::power::{lemma_pow0, lemma_pow_positive, pow};
use vstd::arithmetic::power2::{lemma2_to64, lemma_pow2_pos, lemma_pow2_unfold, pow2};
use vstd::prelude::*;

verus! {

/// The number that a big-endian byte string denotes. The empty string denotes 0.
pub open spec fn be_nat(s: Seq<u8>) -> nat
    decreases s.len(),
{
    if s.len() == 0 {
        0
    } else {
        be_nat(s.drop_last()) * 256 + s.last() as nat
    }
}

/// A byte string is canonical when it does not start with a zero byte.
pub open spec fn canonical(s: Seq<u8>) -> bool {
    s.len() > 0 ==> s[0] != 0
}

/// Appending a byte multiplies by 256 and adds the byte.
pub proof fn lemma_be_nat_push(s: Seq<u8>, b: u8)
    ensures
        be_nat(s.push(b)) == be_nat(s) * 256 + b as nat,
{
    assert(s.push(b).drop_last() =~= s);
}

/// Leading zero bytes do not change the number.
pub proof fn lemma_be_nat_skip_zeros(s: Seq<u8>, k: int)
    requires
        0 <= k <= s.len(),
        forall|j: int| 0 <= j < k ==> s[j] == 0,
    ensures
        be_nat(s) == be_nat(s.subrange(k, s.len() as int)),
    decreases s.len(),
{
    let n = s.len() as int;
    if n == 0 {
        assert(s.subrange(k, n) =~= s);
    } else if k == n {
        lemma_be_nat_skip_zeros(s.drop_last(), k - 1);
        assert(s.drop_last().subrange(k - 1, n - 1) =~= Seq::<u8>::empty());
        assert(s.subrange(k, n) =~= Seq::<u8>::empty());
    } else {
        lemma_be_nat_skip_zeros(s.drop_last(), k);
        assert(s.subrange(k, n).drop_last() =~= s.drop_last().subrange(k, n - 1));
        assert(s.subrange(k, n).last() == s.last());
    }
}

/// A string of `n` bytes denotes a number below `256^n`; a canonical one of
/// `n > 0` bytes denotes at least `256^(n-1)`.
pub proof fn lemma_be_nat_bounds(s: Seq<u8>)
    ensures
        be_nat(s) < pow(256, s.len()),
        s.len() > 0 && s[0] != 0 ==> be_nat(s) >= pow(256, (s.len() - 1) as nat),
    decreases s.len(),
{
    let n = s.len();
    if n == 0 {
        lemma_pow0(256);
    } else {
        let t = s.drop_last();
        lemma_be_nat_bounds(t);
        let hi = pow(256, t.len());
        assert(pow(256, n) == 256 * hi) by {
            reveal(pow);
        }
        assert(be_nat(t) * 256 + 255 < 256 * hi) by (nonlinear_arith)
            requires
                be_nat(t) < hi,
        ;
        if s[0] != 0 {
            if n == 1 {
                lemma_pow0(256);
                assert(t.len() == 0);
                assert(be_nat(t) == 0);
                assert(s.last() == s[0]);
            } else {
                assert(t[0] == s[0]);
                let lo = pow(256, (t.len() - 1) as nat);
                assert(hi == 256 * lo) by {
                    reveal(pow);
                }
                assert(be_nat(t) * 256 >= 256 * lo) by (nonlinear_arith)
                    requires
                        be_nat(t) >= lo,
                ;
            }
        }
    }
}

/// Two canonical byte strings that denote the same number are the same string.
pub proof fn lemma_canonical_unique(a: Seq<u8>, b: Seq<u8>)
    requires
        canonical(a),
        canonical(b),
        be_nat(a) == be_nat(b),
    ensures
        a == b,
{
    lemma_be_nat_bounds(a);
    lemma_be_nat_bounds(b);
    if a.len() < b.len() {
        lemma_pow_le(a.len(), (b.len() - 1) as nat);
    } else if b.len() < a.len() {
        lemma_pow_le(b.len(), (a.len() - 1) as nat);
    } else {
        lemma_same_length_unique(a, b);
    }
}

proof fn lemma_pow_le(i: nat, j: nat)
    requires
        i <= j,
    ensures
        pow(256, i) <= pow(256, j),
    decreases j - i,
{
    if i < j {
        lemma_pow_le(i, (j - 1) as nat);
        lemma_pow_positive(256, (j - 1) as nat);
        assert(pow(256, j) == 256 * pow(256, (j - 1) as nat)) by {
            reveal(pow);
        }
    }
}

proof fn lemma_same_length_unique(a: Seq<u8>, b: Seq<u8>)
    requires
        a.len() == b.len(),
        be_nat(a) == be_nat(b),
    ensures
        a == b,
    decreases a.len(),
{
    if a.len() > 0 {
        let x = be_nat(a.drop_last());
        let y = be_nat(b.drop_last());
        assert(x == y && a.last() == b.last()) by (nonlinear_arith)
            requires
                x * 256 + a.last() as nat == y * 256 + b.last() as nat,
                a.last() < 256,
                b.last() < 256,
        ;
        lemma_same_length_unique(a.drop_last(), b.drop_last());
        assert(a =~= a.drop_last().push(a.last()));
        assert(b =~= b.drop_last().push(b.last()));
    } else {
        assert(a =~= b);
    }
}

/// The number of bits of `n`: the least `k` with `n < 2^k`.
pub open spec fn bit_length(n: nat) -> nat
    decreases n,
{
    if n == 0 {
        0
    } else {
        1 + bit_length(n / 2)
    }
}

/// A number of `k` bits is below `2^k`, and, where it is not 0, at least
/// `2^(k-1)`.
pub proof fn lemma_bit_length_bounds(n: nat)
    ensures
        n < pow2(bit_length(n)),
        n > 0 ==> pow2((bit_length(n) - 1) as nat) <= n,
    decreases n,
{
    if n == 0 {
        lemma_pow2_pos(0);
    } else {
        lemma_bit_length_bounds(n / 2);
        lemma_pow2_unfold(bit_length(n));
        if n / 2 > 0 {
            lemma_pow2_unfold(bit_length(n / 2));
        } else {
            lemma_pow2_pos(0);
            assert(pow2(0) == 1) by {
                lemma2_to64();
            }
        }
    }
}

/// A byte appended to a positive number adds 8 bits.
pub proof fn lemma_bit_length_push(v: nat, b: u8)
    requires
        v > 0,
    ensures
        bit_length(v * 256 + b as nat) == bit_length(v) + 8,
{
    let n = v * 256 + b as nat;
    assert(n / 256 == v);
    assert(n / 2 / 2 == n / 4 && n / 4 / 2 == n / 8 && n / 8 / 2 == n / 16);
    assert(n / 16 / 2 == n / 32 && n / 32 / 2 == n / 64 && n / 64 / 2 == n / 128);
    assert(n / 128 / 2 == n / 256);
    assert(bit_length(n) == 1 + bit_length(n / 2));
    assert(bit_length(n / 2) == 1 + bit_length(n / 4));
    assert(bit_length(n / 4) == 1 + bit_length(n / 8));
    assert(bit_length(n / 8) == 1 + bit_length(n / 16));
    assert(bit_length(n / 16) == 1 + bit_length(n / 32));
    assert(bit_length(n / 32) == 1 + bit_length(n / 64));
    assert(bit_length(n / 64) == 1 + bit_length(n / 128));
    assert(bit_length(n / 128) == 1 + bit_length(n / 256));
}

/// A canonical string of `n > 0` bytes has as many bits as its first byte,
/// and 8 more for each byte after it.
pub proof fn lemma_bit_length_of_bytes(s: Seq<u8>)
    requires
        s.len() > 0,
        s[0] != 0,
    ensures
        bit_length(be_nat(s)) == 8 * (s.len() - 1) + bit_length(s[0] as nat),
    decreases s.len(),
{
    let t = s.drop_last();
    if s.len() == 1 {
        assert(be_nat(t) == 0);
        assert(s.last() == s[0]);
    } else {
        assert(t[0] == s[0]);
        lemma_bit_length_of_bytes(t);
        lemma_be_nat_bounds(t);
        lemma_pow_positive(256, (t.len() - 1) as nat);
        lemma_bit_length_push(be_nat(t), s.last());
    }
}

/// The largest number of bytes a `Natural` may hold.
pub const MAX_BYTES: usize = 0x7fff_ffff;

/// A non-negative integer. Its bytes are big-endian and start with a non-zero
/// byte, so that each number has one representation; zero is the empty string.
#[derive(Debug)]
pub struct Natural {
    bytes: Vec<u8>,
}

impl View for Natural {
    type V = nat;

    closed spec fn view(&self) -> nat {
        be_nat(self.bytes@)
    }
}

impl Natural {
    /// The bytes held, most significant first.
    pub closed spec fn bytes(&self) -> Seq<u8> {
        self.bytes@
    }

    /// The representation invariant: canonical and within the length limit.
    pub open spec fn wf(&self) -> bool {
        &&& self.bytes().len() <= MAX_BYTES
        &&& canonical(self.bytes())
        &&& self@ == be_nat(self.bytes())
    }

    /// The number 0.
    pub fn zero() -> (r: Natural)
        ensures
            r.wf(),
            r@ == 0,
    {
        Natural { bytes: Vec::new() }
    }

    /// The number that `bytes` denotes, whatever zero bytes it starts with.
    fn trimmed(bytes: Vec<u8>) -> (r: Natural)
        requires
            bytes@.len() <= MAX_BYTES,
        ensures
            r.wf(),
            r@ == be_nat(bytes@),
    {
        let n = bytes.len();
        let mut k: usize = 0;
        while k < n && bytes[k] == 0
            invariant
                n == bytes@.len(),
                k <= n,
                forall|j: int| 0 <= j < k ==> bytes@[j] == 0,
            decreases n - k,
        {
            k += 1;
        }
        proof {
            lemma_be_nat_skip_zeros(bytes@, k as int);
        }
        if k == 0 {
            return Natural { bytes };
        }
        let mut out: Vec<u8> = Vec::new();
        let mut i: usize = k;
        while i < n
            invariant
                n == bytes@.len(),
                k <= i <= n,
                out@ == bytes@.subrange(k as int, i as int),
            decreases n - i,
        {
            out.push(bytes[i]);
            i += 1;
            assert(out@ =~= bytes@.subrange(k as int, i as int));
        }
        Natural { bytes: out }
    }

    /// Reads a number from big-endian bytes. Leading zero bytes are accepted
    /// and dropped. A string of more than `MAX_BYTES` bytes is refused.
    pub fn from_be_bytes(bytes: Vec<u8>) -> (r: Result<Natural, CommitmentError>)
        ensures
            bytes@.len() <= MAX_BYTES ==> r is Ok,
            r matches Ok(n) ==> n.wf() && n@ == be_nat(bytes@) && bytes@.len() <= MAX_BYTES,
            r matches Err(e) ==> e == CommitmentError::EncodingError,
    {
        if bytes.len() > MAX_BYTES {
            Err(CommitmentError::EncodingError)
        } else {
            Ok(Natural::trimmed(bytes))
        }
    }

    /// The canonical big-endian bytes of the number: none for zero, else
    /// starting with a non-zero byte.
    pub fn to_be_bytes(&self) -> (r: Vec<u8>)
        requires
            self.wf(),
        ensures
            r@ == self.bytes(),
            be_nat(r@) == self@,
            canonical(r@),
    {
        self.bytes.clone()
    }

    /// The bytes held, for the arithmetic backend.
    pub(crate) fn as_bytes(&self) -> (r: &Vec<u8>)
        ensures
            r@ == self.bytes(),
    {
        &self.bytes
    }

    /// The number `x`.
    pub fn from_u32(x: u32) -> (r: Natural)
        ensures
            r.wf(),
            r@ == x,
    {
        assert(((x >> 24) & 0xff) <= 0xff && ((x >> 16) & 0xff) <= 0xff && ((x >> 8) & 0xff)
            <= 0xff && (x & 0xff) <= 0xff) by (bit_vector);
        let b0: u8 = ((x >> 24) & 0xff) as u8;
        let b1: u8 = ((x >> 16) & 0xff) as u8;
        let b2: u8 = ((x >> 8) & 0xff) as u8;
        let b3: u8 = (x & 0xff) as u8;
        let mut bytes: Vec<u8> = Vec::new();
        bytes.push(b0);
        bytes.push(b1);
        bytes.push(b2);
        bytes.push(b3);
        proof {
            let e = Seq::<u8>::empty();
            lemma_be_nat_push(e, b0);
            lemma_be_nat_push(e.push(b0), b1);
            lemma_be_nat_push(e.push(b0).push(b1), b2);
            lemma_be_nat_push(e.push(b0).push(b1).push(b2), b3);
            assert(bytes@ =~= e.push(b0).push(b1).push(b2).push(b3));
            assert(x == ((x >> 24) & 0xff) * 0x100_0000 + ((x >> 16) & 0xff) * 0x1_0000 + ((x >> 8)
                & 0xff) * 0x100 + (x & 0xff)) by (bit_vector);
        }
        Natural::trimmed(bytes)
    }

    /// Whether two numbers are equal. Every byte is examined whatever the
    /// outcome, so that the time taken tells only the lengths apart.
    pub fn ct_eq(&self, other: &Natural) -> (r: bool)
        requires
            self.wf(),
            other.wf(),
        ensures
            r == (self@ == other@),
    {
        let n = self.bytes.len();
        if n != other.bytes.len() {
            proof {
                if self@ == other@ {
                    lemma_canonical_unique(self.bytes@, other.bytes@);
                }
            }
            return false;
        }
        let mut diff: u8 = 0;
        let mut i: usize = 0;
        while i < n
            invariant
                n == self.bytes@.len(),
                n == other.bytes@.len(),
                i <= n,
                diff == 0 <==> self.bytes@.subrange(0, i as int) =~= other.bytes@.subrange(
                    0,
                    i as int,
                ),
            decreases n - i,
        {
            let a = self.bytes[i];
            let b = other.bytes[i];
            let ghost before = diff;
            diff = diff | (a ^ b);
            proof {
                assert((before | (a ^ b)) == 0 <==> before == 0 && a == b) by (bit_vector);
                let sa = self.bytes@.subrange(0, i as int);
                let sb = other.bytes@.subrange(0, i as int);
                let ta = self.bytes@.subrange(0, i as int + 1);
                let tb = other.bytes@.subrange(0, i as int + 1);
                assert(ta =~= sa.push(a));
                assert(tb =~= sb.push(b));
                if ta == tb {
                    assert(ta.drop_last() =~= sa);
                    assert(tb.drop_last() =~= sb);
                    assert(ta.last() == a && tb.last() == b);
                }
            }
            i += 1;
        }
        proof {
            assert(self.bytes@.subrange(0, n as int) =~= self.bytes@);
            assert(other.bytes@.subrange(0, n as int) =~= other.bytes@);
            if self@ == other@ {
                lemma_canonical_unique(self.bytes@, other.bytes@);
            }
        }
        diff == 0
    }

    /// Whether `self` is less than `other`.
    pub fn lt(&self, other: &Natural) -> (r: bool)
        requires
            self.wf(),
            other.wf(),
        ensures
            r == (self@ < other@),
    {
        let n = self.bytes.len();
        let m = other.bytes.len();
        proof {
            lemma_be_nat_bounds(self.bytes@);
            lemma_be_nat_bounds(other.bytes@);
            if n < m {
                lemma_pow_le(n as nat, (m - 1) as nat);
            }
            if m < n {
                lemma_pow_le(m as nat, (n - 1) as nat);
            }
        }
        if n != m {
            return n < m;
        }
        // Over equally long prefixes, the first difference decides.
        let mut below: bool = false;
        let mut above: bool = false;
        let mut i: usize = 0;
        while i < n
            invariant
                n == self.bytes@.len(),
                n == other.bytes@.len(),
                i <= n,
                below == (be_nat(self.bytes@.subrange(0, i as int)) < be_nat(
                    other.bytes@.subrange(0, i as int),
                )),
                above == (be_nat(self.bytes@.subrange(0, i as int)) > be_nat(
                    other.bytes@.subrange(0, i as int),
                )),
            decreases n - i,
        {
            let a = self.bytes[i];
            let b = other.bytes[i];
            proof {
                let sa = self.bytes@.subrange(0, i as int);
                let sb = other.bytes@.subrange(0, i as int);
                assert(self.bytes@.subrange(0, i as int + 1) =~= sa.push(a));
                assert(other.bytes@.subrange(0, i as int + 1) =~= sb.push(b));
                lemma_be_nat_push(sa, a);
                lemma_be_nat_push(sb, b);
            }
            if !below && !above {
                below = a < b;
                above = a > b;
            }
            i += 1;
        }
        proof {
            assert(self.bytes@.subrange(0, n as int) =~= self.bytes@);
            assert(other.bytes@.subrange(0, n as int) =~= other.bytes@);
        }
        below
    }

    /// The number of bits of a byte.
    fn byte_bits(b: u8) -> (r: u64)
        ensures
            r == bit_length(b as nat),
            r <= 8,
    {
        let mut v: u8 = b;
        let mut k: u64 = 0;
        while v > 0
            invariant
                k + bit_length(v as nat) == bit_length(b as nat),
                k + v <= 255,
            decreases v,
        {
            v = v / 2;
            k += 1;
        }
        proof {
            reveal_with_fuel(bit_length, 10);
            assert(bit_length(b as nat) <= 8);
        }
        k
    }

    /// The number of bits of the number; 0 for zero.
    pub fn bit_length(&self) -> (r: u64)
        requires
            self.wf(),
        ensures
            r == bit_length(self@),
    {
        let n = self.bytes.len();
        if n == 0 {
            return 0;
        }
        proof {
            lemma_bit_length_of_bytes(self.bytes@);
        }
        let top = Natural::byte_bits(self.bytes[0]);
        let rest: u64 = (n - 1) as u64;
        8 * rest + top
    }

    /// Whether the number is 0.
    pub fn is_zero(&self) -> (r: bool)
        requires
            self.wf(),
        ensures
            r == (self@ == 0),
    {
        proof {
            lemma_be_nat_bounds(self.bytes@);
            lemma_pow_positive(256, (self.bytes@.len() - 1) as nat);
        }
        self.bytes.len() == 0
    }
}

impl Clone for Natural {
    fn clone(&self) -> (r: Natural)
        ensures
            r.bytes() == self.bytes(),
            r@ == self@,
            self.wf() ==> r.wf(),
    {
        Natural { bytes: self.bytes.clone() }
    }
}

} // verus!
