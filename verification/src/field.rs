use halo2_proofs::arithmetic::FieldExt;
use halo2_proofs::pasta::group::ff::PrimeField;
use halo2_proofs::pasta::Fp;
use vstd::arithmetic::div_mod::*;
use vstd::prelude::*;

verus! {

/// The order of the Pallas base field,
/// p = 0x40000000000000000000000000000000224698fc094cf91b992d30ed00000001.
pub open spec fn field_modulus() -> nat {
    28948022309329048855892746252171976963363056481941560715954676764349967630337nat
}

/// The inverse of two in the field, (p + 1) / 2.
pub open spec fn two_inv() -> nat {
    (field_modulus() + 1) / 2
}

pub open spec fn pow2_127() -> nat {
    170141183460469231731687303715884105728nat
}

pub open spec fn pow2_128() -> nat {
    340282366920938463463374607431768211456nat
}

/// The number that a little-endian byte string denotes.
pub open spec fn le_value(bytes: Seq<u8>) -> nat
    decreases bytes.len(),
{
    if bytes.len() == 0 {
        0
    } else {
        bytes[0] as nat + 256 * le_value(bytes.drop_first())
    }
}

/// Field addition on canonical values.
pub open spec fn add_mod(a: nat, b: nat) -> nat {
    (a + b) % field_modulus()
}

/// Field multiplication on canonical values.
pub open spec fn mul_mod(a: nat, b: nat) -> nat {
    (a * b) % field_modulus()
}

/// Field negation on canonical values.
pub open spec fn neg_mod(a: nat) -> nat {
    ((field_modulus() - a) % (field_modulus() as int)) as nat
}

/// A `u128` read as an `i128` (two's complement).
pub open spec fn wrap_i128(u: nat) -> int {
    if u < pow2_127() {
        u as int
    } else {
        u - pow2_128()
    }
}

/// The lower 128 bits of a canonical value.
pub open spec fn lower_128(v: nat) -> nat {
    v % pow2_128()
}

/// The signed integer that `felt_to_i128` reads out of the canonical value
/// `v`: values above (p + 1) / 2 stand for the negation of their additive
/// inverse, the others for themselves, each cut to its lower 128 bits.
pub open spec fn signed_value(v: nat) -> int {
    if v > two_inv() {
        -wrap_i128(lower_128(neg_mod(v)))
    } else {
        wrap_i128(lower_128(v))
    }
}

/// The values on which `felt_to_i128` does not overflow: the one excluded
/// case is a negation of `i128::MIN`.
pub open spec fn felt_to_i128_defined(v: nat) -> bool {
    v > two_inv() ==> lower_128(neg_mod(v)) != pow2_127()
}

/// An element of the Pallas base field, held as its canonical
/// little-endian byte representation.
#[derive(Clone, Copy, Debug, PartialEq, Eq)]
pub struct Felt {
    repr: [u8; 32],
}

impl Felt {
    /// The canonical value of the element, in `[0, p)`.
    pub closed spec fn val(self) -> nat {
        le_value(self.repr@)
    }

    #[verifier::type_invariant]
    spec fn canonical(self) -> bool {
        self.val() < field_modulus()
    }

    /// The canonical little-endian bytes of the element.
    pub fn to_repr(&self) -> (r: [u8; 32])
        ensures
            le_value(r@) == self.val(),
            le_value(r@) < field_modulus(),
    {
        proof {
            use_type_invariant(self);
        }
        self.repr
    }

    /// The element whose canonical little-endian bytes are `bytes`; `None`
    /// where `bytes` denote a number not below the modulus.
    pub fn from_repr(bytes: [u8; 32]) -> (r: Option<Felt>)
        ensures
            r.is_some() <==> le_value(bytes@) < field_modulus(),
            r matches Some(x) ==> x.val() == le_value(bytes@),
    {
        fp_from_repr(bytes)
    }

    /// The element `n mod p`.
    pub fn from_u64(n: u64) -> (r: Felt)
        ensures
            r.val() == n as nat,
    {
        fp_from_u64(n)
    }

    /// The element zero.
    pub fn zero() -> (r: Felt)
        ensures
            r.val() == 0,
    {
        fp_zero()
    }

    /// Field addition.
    pub fn add(&self, other: &Felt) -> (r: Felt)
        ensures
            r.val() == add_mod(self.val(), other.val()),
    {
        fp_add(self, other)
    }

    /// Field multiplication.
    pub fn mul(&self, other: &Felt) -> (r: Felt)
        ensures
            r.val() == mul_mod(self.val(), other.val()),
    {
        fp_mul(self, other)
    }

    /// Field negation.
    pub fn neg(&self) -> (r: Felt)
        ensures
            r.val() == neg_mod(self.val()),
    {
        fp_neg(self)
    }
}

impl View for Felt {
    type V = nat;

    open spec fn view(&self) -> nat {
        self.val()
    }
}

/// Calls `<Fp as PrimeField>::from_repr`, which accepts exactly the
/// little-endian byte strings below the modulus; the element is kept as
/// the canonical bytes that `to_repr` gives back.
#[verifier::external_body]
fn fp_from_repr(bytes: [u8; 32]) -> (r: Option<Felt>)
    ensures
        r.is_some() <==> le_value(bytes@) < field_modulus(),
        r matches Some(x) ==> x.val() == le_value(bytes@),
{
    Option::<Fp>::from(Fp::from_repr(bytes)).map(|x: Fp| Felt { repr: x.to_repr() })
}

/// Calls `<Fp as From<u64>>::from`, the element congruent to `n`.
#[verifier::external_body]
fn fp_from_u64(n: u64) -> (r: Felt)
    ensures
        r.val() == n as nat,
{
    Felt { repr: Fp::from(n).to_repr() }
}

/// Calls `Fp::zero`.
#[verifier::external_body]
fn fp_zero() -> (r: Felt)
    ensures
        r.val() == 0,
{
    Felt { repr: Fp::zero().to_repr() }
}

/// Calls `Fp + Fp`, addition modulo p.
#[verifier::external_body]
fn fp_add(a: &Felt, b: &Felt) -> (r: Felt)
    ensures
        r.val() == add_mod(a.val(), b.val()),
{
    let x = Fp::from_repr(a.repr).unwrap();
    let y = Fp::from_repr(b.repr).unwrap();
    Felt { repr: (x + y).to_repr() }
}

/// Calls `Fp * Fp`, multiplication modulo p.
#[verifier::external_body]
fn fp_mul(a: &Felt, b: &Felt) -> (r: Felt)
    ensures
        r.val() == mul_mod(a.val(), b.val()),
{
    let x = Fp::from_repr(a.repr).unwrap();
    let y = Fp::from_repr(b.repr).unwrap();
    Felt { repr: (x * y).to_repr() }
}

/// Calls `-Fp`, the additive inverse modulo p.
#[verifier::external_body]
fn fp_neg(a: &Felt) -> (r: Felt)
    ensures
        r.val() == neg_mod(a.val()),
{
    let x = Fp::from_repr(a.repr).unwrap();
    Felt { repr: (-x).to_repr() }
}

/// Reads `<Fp as FieldExt>::TWO_INV`, which pasta_curves defines as the
/// element (p + 1) / 2.
#[verifier::external_body]
fn fp_two_inv() -> (r: Felt)
    ensures
        r.val() == two_inv(),
{
    Felt { repr: Fp::TWO_INV.to_repr() }
}

/// Calls `Fp > Fp`; pasta_curves orders elements by their canonical
/// values (it compares `to_repr` bytes from the most significant end).
#[verifier::external_body]
fn fp_gt(a: &Felt, b: &Felt) -> (r: bool)
    ensures
        r == (a.val() > b.val()),
{
    Fp::from_repr(a.repr).unwrap() > Fp::from_repr(b.repr).unwrap()
}

/// Calls `<Fp as FieldExt>::get_lower_128`, the lower 128 bits of the
/// canonical value.
#[verifier::external_body]
fn fp_get_lower_128(a: &Felt) -> (r: u128)
    ensures
        r as nat == lower_128(a.val()),
{
    Fp::from_repr(a.repr).unwrap().get_lower_128()
}

proof fn lemma_u128_as_i128(u: u128)
    ensures
        (u as i128) as int == wrap_i128(u as nat),
{
    assert(u < 0x8000_0000_0000_0000_0000_0000_0000_0000u128 ==> (u as i128) as int == u as int)
        by (bit_vector);
    assert(u >= 0x8000_0000_0000_0000_0000_0000_0000_0000u128 ==> (u as i128) as int == u as int
        - 0x1_0000_0000_0000_0000_0000_0000_0000_0000int) by (bit_vector);
}

/// Reads a field element as a signed integer: an element above (p + 1) / 2
/// is taken as the negation of its additive inverse.
pub fn felt_to_i128(x: Felt) -> (r: i128)
    requires
        felt_to_i128_defined(x.val()),
    ensures
        r as int == signed_value(x.val()),
{
    let half = fp_two_inv();
    if fp_gt(&x, &half) {
        let n = fp_neg(&x);
        let low = fp_get_lower_128(&n);
        proof {
            lemma_u128_as_i128(low);
        }
        let s = low as i128;
        -s
    } else {
        let low = fp_get_lower_128(&x);
        proof {
            lemma_u128_as_i128(low);
        }
        low as i128
    }
}

/// The field element congruent to a signed 64-bit integer.
pub fn felt_from_i64(x: i64) -> (r: Felt)
    ensures
        r.val() == x as int % field_modulus() as int,
{
    if x > 0 {
        fp_from_u64(x as u64)
    } else {
        let a: u64 = (-(x as i128)) as u64;
        let r = fp_neg(&fp_from_u64(a));
        proof {
            lemma_mod_add_multiples_vanish(-(a as int), field_modulus() as int);
        }
        r
    }
}

/// `felt_to_i128` gives back every integer of magnitude below 2^127 from
/// the field element congruent to it.
pub proof fn lemma_signed_value_recovers(z: int)
    requires
        -(pow2_127() as int) < z < pow2_127(),
    ensures
        felt_to_i128_defined((z % field_modulus() as int) as nat),
        signed_value((z % field_modulus() as int) as nat) == z,
{
    let p = field_modulus() as int;
    if z >= 0 {
        lemma_small_mod(z as nat, p as nat);
        lemma_small_mod(z as nat, pow2_128());
    } else {
        lemma_mod_add_multiples_vanish(z, p);
        lemma_small_mod((p + z) as nat, p as nat);
        let v = p + z;
        assert(v % p == v);
        assert((p - v) == -z);
        lemma_small_mod((-z) as nat, p as nat);
        lemma_small_mod((-z) as nat, pow2_128());
    }
}

/// Law: reading back, with `felt_to_i128`, the field element that
/// `felt_from_i64` makes of `x` gives `x`.
pub proof fn lemma_i64_round_trip(x: i64)
    ensures
        felt_to_i128_defined((x as int % field_modulus() as int) as nat),
        signed_value((x as int % field_modulus() as int) as nat) == x as int,
{
    lemma_signed_value_recovers(x as int);
}

} // verus!
