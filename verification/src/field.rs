//! The scalar field of the MNT6-753 pairing: a prime field of 753 bits.
//!
//! A [`Scalar`] stores the canonical representative of a residue class as twelve
//! little-endian 64-bit limbs. Its mathematical model is the integer in
//! `[0, modulus())` that the limbs spell out. All arithmetic is carried out by
//! `ark_ff` on the Montgomery form; the functions that call it are trusted and say
//! what the field operation is in terms of integers modulo `modulus()`.

use ark_ff::Field;
use ark_ff::PrimeField;
use vstd::arithmetic::div_mod::lemma_mul_mod_noop_general;
use vstd::arithmetic::div_mod::lemma_small_mod;
use vstd::arithmetic::mul::lemma_mul_is_associative;
use vstd::arithmetic::power::pow;
use vstd::prelude::*;

verus! {

/// The order of the scalar field.
#[verifier::opaque]
pub open spec fn modulus() -> int {
    41898490967918953402344214791240637128170709919953949071783502921025352812571106773058893763790338921418070971888253786114353726529584385201591605722013126468931404347949840543007986327743462853720628051692141265303114721689601int
}

/// The modulus exceeds every value of a `u128`, so integers of machine size are
/// their own canonical representatives.
pub proof fn lemma_modulus_bound()
    ensures
        modulus() > 0x1_0000_0000_0000_0000_0000_0000_0000_0000int,
{
    reveal(modulus);
}

/// Sum modulo the field order.
pub open spec fn field_add(a: int, b: int) -> int {
    (a + b) % modulus()
}

/// Difference modulo the field order.
pub open spec fn field_sub(a: int, b: int) -> int {
    (a - b) % modulus()
}

/// Product modulo the field order.
pub open spec fn field_mul(a: int, b: int) -> int {
    (a * b) % modulus()
}

/// Additive inverse modulo the field order.
pub open spec fn field_neg(a: int) -> int {
    (-a) % modulus()
}

/// `a` raised to the power `e`, modulo the field order.
pub open spec fn field_pow(a: int, e: nat) -> int {
    pow(a, e) % modulus()
}

/// `x` is a multiplicative inverse of `a`.
pub open spec fn is_inverse(x: int, a: int) -> bool {
    0 <= x < modulus() && (x * a) % modulus() == 1
}

/// The multiplicative inverse of `a` (meaningful when one exists).
pub open spec fn field_inv(a: int) -> int {
    choose|x: int| is_inverse(x, a)
}

/// Quotient `a / b` in the field: `a` times the inverse of `b`.
pub open spec fn field_div(a: int, b: int) -> int {
    (a * field_inv(b)) % modulus()
}

/// `q` is the quotient `a / b`, and `b` has an inverse.
pub open spec fn is_quotient(q: int, a: int, b: int) -> bool {
    is_inverse(field_inv(b), b) && q == field_div(a, b)
}

/// The integer that a little-endian sequence of 64-bit limbs spells out.
pub open spec fn limbs_value(limbs: Seq<u64>) -> int
    decreases limbs.len(),
{
    if limbs.len() == 0 {
        0
    } else {
        limbs[0] as int + 0x1_0000_0000_0000_0000 * limbs_value(limbs.drop_first())
    }
}

/// No limb sequence spells out a negative integer.
pub proof fn lemma_limbs_value_nonnegative(limbs: Seq<u64>)
    ensures
        limbs_value(limbs) >= 0,
    decreases limbs.len(),
{
    if limbs.len() > 0 {
        lemma_limbs_value_nonnegative(limbs.drop_first());
    }
}

/// Two limb sequences of one length spell out the same integer only if they are
/// the same sequence.
pub proof fn lemma_limbs_value_injective(a: Seq<u64>, b: Seq<u64>)
    requires
        a.len() == b.len(),
        limbs_value(a) == limbs_value(b),
    ensures
        a == b,
    decreases a.len(),
{
    if a.len() > 0 {
        let x = limbs_value(a.drop_first());
        let y = limbs_value(b.drop_first());
        assert(a[0] as int + 0x1_0000_0000_0000_0000 * x == b[0] as int + 0x1_0000_0000_0000_0000
            * y);
        assert(x == y && a[0] == b[0]);
        lemma_limbs_value_injective(a.drop_first(), b.drop_first());
        assert(a =~= seq![a[0]] + a.drop_first());
        assert(b =~= seq![b[0]] + b.drop_first());
    } else {
        assert(a =~= b);
    }
}

/// A sequence of zero limbs spells out zero.
pub proof fn lemma_limbs_value_zero(limbs: Seq<u64>)
    requires
        forall|i: int| 0 <= i < limbs.len() ==> limbs[i] == 0,
    ensures
        limbs_value(limbs) == 0,
    decreases limbs.len(),
{
    if limbs.len() > 0 {
        lemma_limbs_value_zero(limbs.drop_first());
    }
}

/// A limb sequence whose limbs above the first are zero spells out its first limb.
pub proof fn lemma_limbs_value_single(limbs: Seq<u64>)
    requires
        limbs.len() > 0,
        forall|i: int| 1 <= i < limbs.len() ==> limbs[i] == 0,
    ensures
        limbs_value(limbs) == limbs[0],
{
    lemma_limbs_value_zero(limbs.drop_first());
}

/// An element of the scalar field.
#[derive(Clone, Copy, Debug, PartialEq, Eq)]
pub struct Scalar {
    pub(crate) limbs: [u64; 12],
}

impl View for Scalar {
    type V = int;

    /// The integer that the element's limbs spell out.
    closed spec fn view(&self) -> int {
        limbs_value(self.limbs@)
    }
}

impl Scalar {
    /// The limbs are the canonical representative: the value is below the modulus.
    pub open spec fn wf(&self) -> bool {
        0 <= self@ < modulus()
    }

    /// The limbs of the element, least significant first.
    pub closed spec fn spec_limbs(&self) -> Seq<u64> {
        self.limbs@
    }

    /// Two elements with the same value are the same element.
    pub proof fn lemma_view_injective(a: Scalar, b: Scalar)
        requires
            a@ == b@,
        ensures
            a == b,
    {
        lemma_limbs_value_injective(a.limbs@, b.limbs@);
        assert(a.limbs =~= b.limbs);
    }

    /// The value of an element is the integer that its twelve limbs spell out.
    pub proof fn lemma_view_is_limbs_value(self)
        ensures
            self@ == limbs_value(self.spec_limbs()),
            self.spec_limbs().len() == 12,
            self@ >= 0,
    {
        lemma_limbs_value_nonnegative(self.limbs@);
    }

    /// The additive identity.
    pub fn zero() -> (r: Scalar)
        ensures
            r@ == 0,
            r.wf(),
    {
        let r = Scalar { limbs: [0u64;12] };
        proof {
            lemma_limbs_value_zero(r.limbs@);
            lemma_modulus_bound();
        }
        r
    }

    /// The multiplicative identity.
    pub fn one() -> (r: Scalar)
        ensures
            r@ == 1,
            r.wf(),
    {
        let mut limbs = [0u64;12];
        limbs[0] = 1;
        let r = Scalar { limbs };
        proof {
            lemma_limbs_value_single(r.limbs@);
            lemma_modulus_bound();
        }
        r
    }

    /// The element that stands for a small unsigned integer.
    pub fn from_u64(x: u64) -> (r: Scalar)
        ensures
            r@ == x,
            r.wf(),
    {
        let mut limbs = [0u64;12];
        limbs[0] = x;
        let r = Scalar { limbs };
        proof {
            lemma_limbs_value_single(r.limbs@);
            lemma_modulus_bound();
        }
        r
    }

    /// The limbs of the canonical representative, least significant first.
    pub fn to_limbs(&self) -> (r: [u64; 12])
        ensures
            r@ == self.spec_limbs(),
    {
        self.limbs
    }

    /// The element with the given limbs, least significant first, if they spell
    /// out an integer below the modulus.
    pub fn from_limbs(limbs: [u64; 12]) -> (r: Option<Scalar>)
        ensures
            r is Some <==> limbs_value(limbs@) < modulus(),
            r matches Some(s) ==> s.spec_limbs() == limbs@ && s@ == limbs_value(limbs@) && s.wf(),
    {
        let r = fr_from_limbs(limbs);
        proof {
            if let Some(s) = r {
                s.lemma_view_is_limbs_value();
            }
        }
        r
    }

    /// Reading an element's limbs and making an element of them gives the element
    /// back.
    pub proof fn lemma_limbs_roundtrip(self, limbs: [u64; 12], back: Option<Scalar>)
        requires
            self.wf(),
            limbs@ == self.spec_limbs(),
            back is Some <==> limbs_value(limbs@) < modulus(),
            back matches Some(s) ==> s.spec_limbs() == limbs@,
        ensures
            back == Some(self),
    {
        assert(back is Some);
        assert(back->0.limbs =~= self.limbs);
    }

    /// Whether the element is the additive identity.
    pub fn is_zero(&self) -> (r: bool)
        ensures
            r == (self@ == 0),
    {
        let z = Scalar::zero();
        self.same(&z)
    }

    /// Whether two elements are equal.
    pub fn same(&self, other: &Scalar) -> (r: bool)
        ensures
            r == (self@ == other@),
    {
        let mut i: usize = 0;
        while i < 12
            invariant
                i <= 12,
                forall|j: int| 0 <= j < i ==> self.limbs@[j] == other.limbs@[j],
            decreases 12 - i,
        {
            if self.limbs[i] != other.limbs[i] {
                proof {
                    if self@ == other@ {
                        lemma_limbs_value_injective(self.limbs@, other.limbs@);
                    }
                }
                return false;
            }
            i += 1;
        }
        proof {
            assert(self.limbs@ =~= other.limbs@);
        }
        true
    }

    /// The element that stands for an unsigned integer.
    pub fn from_u128(x: u128) -> (r: Scalar)
        ensures
            r@ == x,
            r.wf(),
    {
        let low: u64 = (x % 0x1_0000_0000_0000_0000u128) as u64;
        let high: u64 = (x / 0x1_0000_0000_0000_0000u128) as u64;
        let mut limbs = [0u64;12];
        limbs[0] = low;
        limbs[1] = high;
        let r = Scalar { limbs };
        proof {
            lemma_limbs_value_single(r.limbs@.drop_first());
            lemma_modulus_bound();
        }
        r
    }

    /// The element that stands for a signed integer: its residue modulo the field
    /// order.
    pub fn from_i32(x: i32) -> (r: Scalar)
        ensures
            r@ == (x as int) % modulus(),
            r.wf(),
    {
        proof {
            lemma_modulus_bound();
        }
        if x >= 0 {
            proof {
                lemma_small_mod(x as nat, modulus() as nat);
            }
            Scalar::from_u64(x as u64)
        } else {
            let magnitude: u64 = (-(x as i64)) as u64;
            Scalar::from_u64(magnitude).negated()
        }
    }

    /// Uniform construction from a byte buffer: the bytes are cut down to the bit
    /// length of the modulus and rejected when they still spell out an integer that
    /// is not below it.
    pub fn from_random_bytes(bytes: &[u8]) -> (r: Option<Scalar>)
        ensures
            r matches Some(s) ==> s.wf(),
            scalar_option_view(r) == random_bytes_value(bytes@),
    {
        fr_from_random_bytes(bytes)
    }

    /// Sum in the field.
    pub fn plus(&self, rhs: &Scalar) -> (r: Scalar)
        requires
            self.wf(),
            rhs.wf(),
        ensures
            r@ == field_add(self@, rhs@),
            r.wf(),
    {
        fr_add(self, rhs)
    }

    /// Difference in the field.
    pub fn minus(&self, rhs: &Scalar) -> (r: Scalar)
        requires
            self.wf(),
            rhs.wf(),
        ensures
            r@ == field_sub(self@, rhs@),
            r.wf(),
    {
        fr_sub(self, rhs)
    }

    /// Product in the field. A product of non-zero elements is not zero.
    pub fn times(&self, rhs: &Scalar) -> (r: Scalar)
        requires
            self.wf(),
            rhs.wf(),
        ensures
            r@ == field_mul(self@, rhs@),
            r@ == 0 ==> self@ == 0 || rhs@ == 0,
            r.wf(),
    {
        fr_mul(self, rhs)
    }

    /// Additive inverse in the field.
    pub fn negated(&self) -> (r: Scalar)
        requires
            self.wf(),
        ensures
            r@ == field_neg(self@),
            r.wf(),
    {
        fr_neg(self)
    }

    /// Quotient in the field, for a divisor that is not zero.
    pub fn divided_by(&self, rhs: &Scalar) -> (r: Scalar)
        requires
            self.wf(),
            rhs.wf(),
            rhs@ != 0,
        ensures
            is_quotient(r@, self@, rhs@),
            field_mul(r@, rhs@) == self@,
            r.wf(),
    {
        let r = fr_div(self, rhs);
        proof {
            lemma_quotient_times_divisor(r@, self@, rhs@);
        }
        r
    }

    /// Power in the field.
    pub fn pow(&self, e: u64) -> (r: Scalar)
        requires
            self.wf(),
        ensures
            r@ == field_pow(self@, e as nat),
            r.wf(),
    {
        fr_pow(self, e)
    }
}

impl Default for Scalar {
    /// The additive identity.
    fn default() -> (r: Scalar)
        ensures
            r@ == 0,
            r.wf(),
    {
        Scalar::zero()
    }
}

impl core::convert::From<i32> for Scalar {
    /// The element that stands for a signed integer: its residue.
    fn from(x: i32) -> (r: Scalar)
        ensures
            r@ == (x as int) % modulus(),
            r.wf(),
    {
        let r = Scalar::from_i32(x);
        proof {
            Scalar::lemma_view_injective(r, scalar_of((x as int) % modulus()));
        }
        r
    }
}

impl vstd::std_specs::convert::FromSpecImpl<i32> for Scalar {
    open spec fn obeys_from_spec() -> bool {
        true
    }

    open spec fn from_spec(x: i32) -> Scalar {
        scalar_of((x as int) % modulus())
    }
}

impl core::convert::From<u128> for Scalar {
    /// The element that stands for an unsigned integer.
    fn from(x: u128) -> (r: Scalar)
        ensures
            r@ == x,
            r.wf(),
    {
        let r = Scalar::from_u128(x);
        proof {
            Scalar::lemma_view_injective(r, scalar_of(x as int));
        }
        r
    }
}

impl vstd::std_specs::convert::FromSpecImpl<u128> for Scalar {
    open spec fn obeys_from_spec() -> bool {
        true
    }

    open spec fn from_spec(x: u128) -> Scalar {
        scalar_of(x as int)
    }
}

/// The scalar with the given value.
pub open spec fn scalar_of(value: int) -> Scalar {
    choose|s: Scalar| s@ == value
}

/// The values of a sequence of scalars.
pub open spec fn scalars_view(s: Seq<Scalar>) -> Seq<int> {
    Seq::new(s.len(), |i: int| s[i]@)
}

/// Every scalar of the sequence is a canonical representative.
pub open spec fn scalars_wf(s: Seq<Scalar>) -> bool {
    forall|i: int| 0 <= i < s.len() ==> (#[trigger] s[i]).wf()
}

/// The value of an optional scalar.
pub open spec fn scalar_option_view(s: Option<Scalar>) -> Option<int> {
    match s {
        Some(x) => Some(x@),
        None => None,
    }
}

/// A quotient times its divisor gives back the dividend.
pub proof fn lemma_quotient_times_divisor(q: int, a: int, b: int)
    requires
        is_quotient(q, a, b),
        0 <= a < modulus(),
    ensures
        field_mul(q, b) == a,
{
    let p = modulus();
    let i = field_inv(b);
    // q * b = ((a * i) % p) * b, congruent to a * (i * b), congruent to a * 1.
    lemma_mul_mod_noop_general(a * i, b, p);
    assert(((a * i) % p * b) % p == ((a * i) * b) % p);
    lemma_mul_is_associative(a, i, b);
    lemma_mul_mod_noop_general(a, i * b, p);
    assert((a * (i * b)) % p == (a * ((i * b) % p)) % p);
    assert(a * 1 == a);
    lemma_small_mod(a as nat, p as nat);
}

/// The integer that a sequence of bytes spells out, least significant byte first.
pub open spec fn bytes_value(bytes: Seq<u8>) -> int
    decreases bytes.len(),
{
    if bytes.len() == 0 {
        0
    } else {
        bytes[0] as int + 256 * bytes_value(bytes.drop_first())
    }
}

/// The value that the field makes of a byte buffer, if it accepts it: of the
/// integer that the first 96 bytes spell out (all of them, where the buffer is
/// shorter), least significant byte first, the 753 low bits are kept, as many as
/// the modulus has; the buffer is accepted if that value is below the modulus.
pub open spec fn random_bytes_value(bytes: Seq<u8>) -> Option<int> {
    let head = if bytes.len() <= 96 {
        bytes
    } else {
        bytes.take(96)
    };
    let value = bytes_value(head) % pow(2, 753);
    if value < modulus() {
        Some(value)
    } else {
        None
    }
}

/// Trusted: `Fp + Fp` of `ark_ff` is addition modulo the field order, and
/// `from_bigint` / `into_bigint` convert between an element and the limbs of its
/// canonical representative.
#[verifier::external_body]
fn fr_add(a: &Scalar, b: &Scalar) -> (r: Scalar)
    requires
        a.wf(),
        b.wf(),
    ensures
        r@ == field_add(a@, b@),
        r.wf(),
{
    let x = ark_mnt6_753::Fr::from_bigint(ark_ff::BigInt::new(a.limbs)).unwrap();
    let y = ark_mnt6_753::Fr::from_bigint(ark_ff::BigInt::new(b.limbs)).unwrap();
    Scalar { limbs: (x + y).into_bigint().0 }
}

/// Trusted: `Fp - Fp` of `ark_ff` is subtraction modulo the field order.
#[verifier::external_body]
fn fr_sub(a: &Scalar, b: &Scalar) -> (r: Scalar)
    requires
        a.wf(),
        b.wf(),
    ensures
        r@ == field_sub(a@, b@),
        r.wf(),
{
    let x = ark_mnt6_753::Fr::from_bigint(ark_ff::BigInt::new(a.limbs)).unwrap();
    let y = ark_mnt6_753::Fr::from_bigint(ark_ff::BigInt::new(b.limbs)).unwrap();
    Scalar { limbs: (x - y).into_bigint().0 }
}

/// Trusted: `Fp * Fp` of `ark_ff` is multiplication modulo the field order, which
/// is prime, so that the product is zero only if a factor is.
#[verifier::external_body]
fn fr_mul(a: &Scalar, b: &Scalar) -> (r: Scalar)
    requires
        a.wf(),
        b.wf(),
    ensures
        r@ == field_mul(a@, b@),
        r@ == 0 ==> a@ == 0 || b@ == 0,
        r.wf(),
{
    let x = ark_mnt6_753::Fr::from_bigint(ark_ff::BigInt::new(a.limbs)).unwrap();
    let y = ark_mnt6_753::Fr::from_bigint(ark_ff::BigInt::new(b.limbs)).unwrap();
    Scalar { limbs: (x * y).into_bigint().0 }
}

/// Trusted: `-Fp` of `ark_ff` is negation modulo the field order.
#[verifier::external_body]
fn fr_neg(a: &Scalar) -> (r: Scalar)
    requires
        a.wf(),
    ensures
        r@ == field_neg(a@),
        r.wf(),
{
    let x = ark_mnt6_753::Fr::from_bigint(ark_ff::BigInt::new(a.limbs)).unwrap();
    Scalar { limbs: (-x).into_bigint().0 }
}

/// Trusted: `Fp / Fp` of `ark_ff` multiplies by the inverse of the divisor, which
/// exists for every divisor but zero (on zero it panics).
#[verifier::external_body]
fn fr_div(a: &Scalar, b: &Scalar) -> (r: Scalar)
    requires
        a.wf(),
        b.wf(),
        b@ != 0,
    ensures
        is_quotient(r@, a@, b@),
        r.wf(),
{
    let x = ark_mnt6_753::Fr::from_bigint(ark_ff::BigInt::new(a.limbs)).unwrap();
    let y = ark_mnt6_753::Fr::from_bigint(ark_ff::BigInt::new(b.limbs)).unwrap();
    Scalar { limbs: (x / y).into_bigint().0 }
}

/// Trusted: `Field::pow` of `ark_ff` with a one-limb exponent is the power modulo
/// the field order.
#[verifier::external_body]
fn fr_pow(a: &Scalar, e: u64) -> (r: Scalar)
    requires
        a.wf(),
    ensures
        r@ == field_pow(a@, e as nat),
        r.wf(),
{
    let x = ark_mnt6_753::Fr::from_bigint(ark_ff::BigInt::new(a.limbs)).unwrap();
    Scalar { limbs: x.pow([e]).into_bigint().0 }
}

/// Trusted: `PrimeField::from_bigint` of `ark_ff` takes the limbs of an integer
/// below the modulus, and refuses any other; `into_bigint` gives them back.
#[verifier::external_body]
fn fr_from_limbs(limbs: [u64; 12]) -> (r: Option<Scalar>)
    ensures
        r is Some <==> limbs_value(limbs@) < modulus(),
        r matches Some(s) ==> s.spec_limbs() == limbs@,
{
    match ark_mnt6_753::Fr::from_bigint(ark_ff::BigInt::new(limbs)) {
        Some(x) => Some(Scalar { limbs: x.into_bigint().0 }),
        None => None,
    }
}

/// Trusted: `Field::from_random_bytes` of `ark_ff` copies up to 96 bytes of the
/// buffer into twelve zeroed limbs, least significant byte first, clears the 15
/// bits of the last limb that the modulus does not have, and makes an element of
/// the integer if it is below the modulus.
#[verifier::external_body]
fn fr_from_random_bytes(bytes: &[u8]) -> (r: Option<Scalar>)
    ensures
        r matches Some(s) ==> s.wf(),
        scalar_option_view(r) == random_bytes_value(bytes@),
{
    match ark_mnt6_753::Fr::from_random_bytes(bytes) {
        Some(x) => Some(Scalar { limbs: x.into_bigint().0 }),
        None => None,
    }
}

} // verus!
