//! Elements of the prime field that all circuit values live in.
//!
//! An element is held as its canonical little-endian bytes. The arithmetic is
//! `pasta_curves`'s: the field is the base field of the Pallas curve.

use halo2_proofs::arithmetic::FieldExt;
use halo2_proofs::pasta::group::ff::PrimeField;
use halo2_proofs::pasta::Fp;
use vstd::prelude::*;

verus! {

/// The order of the field, a prime of 255 bits.
pub open spec fn modulus() -> nat {
    0x40000000000000000000000000000000224698fc094cf91b992d30ed00000001nat
}

/// The number that a little-endian byte string stands for.
pub open spec fn le_nat(s: Seq<u8>) -> nat
    decreases s.len(),
{
    if s.len() == 0 {
        0
    } else {
        s[0] as nat + 256 * le_nat(s.skip(1))
    }
}

/// Addition in the field, on representatives.
pub open spec fn fadd(a: nat, b: nat) -> nat {
    (a + b) % modulus()
}

/// Multiplication in the field, on representatives.
pub open spec fn fmul(a: nat, b: nat) -> nat {
    (a * b) % modulus()
}

/// The additive inverse in the field, on representatives.
pub open spec fn fneg(a: nat) -> nat {
    ((modulus() - a % modulus()) % (modulus() as int)) as nat
}

/// A field element. Its view is the number below the modulus that it stands
/// for.
#[derive(Clone, Copy, Debug)]
pub struct Fe {
    repr: [u8; 32],
}

impl View for Fe {
    type V = nat;

    closed spec fn view(&self) -> nat {
        le_nat(self.repr@)
    }
}

impl Fe {
    /// Every element stands for a number below the modulus.
    #[verifier::type_invariant]
    pub open spec fn canonical(self) -> bool {
        self@ < modulus()
    }

    /// The additive identity.
    pub fn zero() -> (r: Fe)
        ensures
            r@ == 0,
    {
        Fe { repr: fp_from_u128(0) }
    }

    /// The multiplicative identity.
    pub fn one() -> (r: Fe)
        ensures
            r@ == 1,
    {
        Fe { repr: fp_from_u128(1) }
    }

    /// The element that stands for `v`.
    pub fn from_u64(v: u64) -> (r: Fe)
        ensures
            r@ == v,
    {
        Fe { repr: fp_from_u128(v as u128) }
    }

    /// The element that stands for `v`.
    pub fn from_u128(v: u128) -> (r: Fe)
        ensures
            r@ == v,
    {
        Fe { repr: fp_from_u128(v) }
    }

    /// The element with the given canonical bytes, if they are canonical.
    pub fn from_bytes(bytes: [u8; 32]) -> (r: Option<Fe>)
        ensures
            r is Some <==> le_nat(bytes@) < modulus(),
            r matches Some(e) ==> e@ == le_nat(bytes@) && e.bytes() == bytes,
    {
        if fp_is_canonical(&bytes) {
            Some(Fe { repr: bytes })
        } else {
            None
        }
    }

    /// The canonical bytes, as a specification.
    pub closed spec fn bytes(&self) -> [u8; 32] {
        self.repr
    }

    /// The canonical bytes, least significant first.
    pub fn to_bytes(&self) -> (r: [u8; 32])
        ensures
            r == self.bytes(),
            le_nat(r@) == self@,
    {
        self.repr
    }

    /// The sum of two elements.
    pub fn add(&self, rhs: &Fe) -> (r: Fe)
        ensures
            r@ == fadd(self@, rhs@),
    {
        proof {
            use_type_invariant(self);
            use_type_invariant(rhs);
        }
        Fe { repr: fp_add(&self.repr, &rhs.repr) }
    }

    /// The product of two elements.
    pub fn mul(&self, rhs: &Fe) -> (r: Fe)
        ensures
            r@ == fmul(self@, rhs@),
    {
        proof {
            use_type_invariant(self);
            use_type_invariant(rhs);
        }
        Fe { repr: fp_mul(&self.repr, &rhs.repr) }
    }

    /// The additive inverse of an element.
    pub fn neg(&self) -> (r: Fe)
        ensures
            r@ == fneg(self@),
    {
        proof {
            use_type_invariant(self);
        }
        Fe { repr: fp_neg(&self.repr) }
    }

    /// Whether the element is the additive identity.
    pub fn is_zero(&self) -> (r: bool)
        ensures
            r == (self@ == 0),
    {
        let z = Fe::zero();
        *self == z
    }
}

impl PartialEq for Fe {
    fn eq(&self, other: &Fe) -> (r: bool) {
        proof {
            use_type_invariant(self);
            use_type_invariant(other);
        }
        fp_eq(&self.repr, &other.repr)
    }
}

impl vstd::std_specs::cmp::PartialEqSpecImpl for Fe {
    open spec fn obeys_eq_spec() -> bool {
        true
    }

    open spec fn eq_spec(&self, other: &Fe) -> bool {
        self@ == other@
    }
}

/// `Fp::from_u128`, read back as canonical bytes: they stand for `v`, which
/// is below the modulus.
#[verifier::external_body]
fn fp_from_u128(v: u128) -> (r: [u8; 32])
    ensures
        le_nat(r@) == v,
{
    Fp::from_u128(v).to_repr()
}

/// `Fp::from_repr`, asked only whether it accepts the bytes: it does when the
/// number they stand for is below the modulus.
#[verifier::external_body]
fn fp_is_canonical(a: &[u8; 32]) -> (r: bool)
    ensures
        r == (le_nat(a@) < modulus()),
{
    bool::from(Fp::from_repr(*a).is_some())
}

/// `Fp`'s addition, on canonical bytes: the bytes that come back are
/// canonical and stand for the sum of the two numbers, reduced by the
/// modulus.
#[verifier::external_body]
fn fp_add(a: &[u8; 32], b: &[u8; 32]) -> (r: [u8; 32])
    requires
        le_nat(a@) < modulus(),
        le_nat(b@) < modulus(),
    ensures
        le_nat(r@) == (le_nat(a@) + le_nat(b@)) % modulus(),
{
    (Fp::from_repr(*a).unwrap() + Fp::from_repr(*b).unwrap()).to_repr()
}

/// `Fp`'s multiplication, on canonical bytes: the bytes that come back are
/// canonical and stand for the product of the two numbers, reduced by the
/// modulus.
#[verifier::external_body]
fn fp_mul(a: &[u8; 32], b: &[u8; 32]) -> (r: [u8; 32])
    requires
        le_nat(a@) < modulus(),
        le_nat(b@) < modulus(),
    ensures
        le_nat(r@) == (le_nat(a@) * le_nat(b@)) % modulus(),
{
    (Fp::from_repr(*a).unwrap() * Fp::from_repr(*b).unwrap()).to_repr()
}

/// `Fp`'s negation, on canonical bytes: the bytes that come back are
/// canonical and stand for the modulus less the number, and for zero when
/// the number is zero.
#[verifier::external_body]
fn fp_neg(a: &[u8; 32]) -> (r: [u8; 32])
    requires
        le_nat(a@) < modulus(),
    ensures
        le_nat(r@) == (modulus() - le_nat(a@)) % (modulus() as int),
{
    (-Fp::from_repr(*a).unwrap()).to_repr()
}

/// `Fp`'s equality, on canonical bytes: two elements are equal when they
/// stand for the same number.
#[verifier::external_body]
fn fp_eq(a: &[u8; 32], b: &[u8; 32]) -> (r: bool)
    requires
        le_nat(a@) < modulus(),
        le_nat(b@) < modulus(),
    ensures
        r == (le_nat(a@) == le_nat(b@)),
{
    Fp::from_repr(*a).unwrap() == Fp::from_repr(*b).unwrap()
}

} // verus!
