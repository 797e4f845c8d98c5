//! The curve arithmetic, which this library does not implement: it calls the
//! `bls12_381` crate. Every function here with a body that the verifier does
//! not read is a thin call into that crate, and its contract is believed, not
//! proved. Points cross this boundary in the crate's uncompressed wire form.
use crate::bytes::{all_zero, be_nat};
use crate::field::{fp2_mul, modulus, Fp2Value};
use bls12_381::hash_to_curve::{HashToField, MapToCurve};
use bls12_381::{
    multi_miller_loop, G1Affine, G1Projective, G2Affine, G2Prepared, G2Projective, Gt, Scalar,
};
use digest::generic_array::GenericArray;
use vstd::prelude::*;

verus! {

/// Width of a G1 point in wire form.
pub const G1_WIRE_LEN: usize = 96;

/// Width of a G2 point in wire form.
pub const G2_WIRE_LEN: usize = 192;

/// The wire form of the point at infinity: the byte 0x40, then zeros.
pub open spec fn wire_is_identity(s: Seq<u8>) -> bool {
    s.len() > 0 && s[0] == 0x40 && all_zero(s.skip(1))
}

/// The x coordinate in a G1 wire form.
pub open spec fn g1_wire_x(s: Seq<u8>) -> nat {
    be_nat(s.subrange(0, 48))
}

/// The y coordinate in a G1 wire form.
pub open spec fn g1_wire_y(s: Seq<u8>) -> nat {
    be_nat(s.subrange(48, 96))
}

/// A well-formed G1 wire form: the point at infinity, or two big-endian
/// coordinates below the modulus, x first.
pub open spec fn g1_wire(s: Seq<u8>) -> bool {
    &&& s.len() == G1_WIRE_LEN
    &&& (wire_is_identity(s) || (g1_wire_x(s) < modulus() && g1_wire_y(s) < modulus()))
}

/// The equation of the curve that holds G1: `y^2 = x^3 + 4` in the base field.
pub open spec fn g1_curve_equation(x: nat, y: nat) -> bool {
    (y * y) % modulus() == (x * x * x + 4) % modulus()
}

/// The point in a G1 wire form is the point at infinity or solves the curve
/// equation.
pub open spec fn g1_wire_on_curve(s: Seq<u8>) -> bool {
    wire_is_identity(s) || g1_curve_equation(g1_wire_x(s), g1_wire_y(s))
}

/// The x coordinate in a G2 wire form, which puts the `u` component first.
pub open spec fn g2_wire_x(s: Seq<u8>) -> Fp2Value {
    Fp2Value { c0: be_nat(s.subrange(48, 96)), c1: be_nat(s.subrange(0, 48)) }
}

/// The y coordinate in a G2 wire form, which puts the `u` component first.
pub open spec fn g2_wire_y(s: Seq<u8>) -> Fp2Value {
    Fp2Value { c0: be_nat(s.subrange(144, 192)), c1: be_nat(s.subrange(96, 144)) }
}

/// A well-formed G2 wire form: the point at infinity, or four big-endian
/// numbers below the modulus.
pub open spec fn g2_wire(s: Seq<u8>) -> bool {
    &&& s.len() == G2_WIRE_LEN
    &&& (wire_is_identity(s) || (g2_wire_x(s).c0 < modulus() && g2_wire_x(s).c1 < modulus()
        && g2_wire_y(s).c0 < modulus() && g2_wire_y(s).c1 < modulus()))
}

/// The equation of the curve that holds G2: `y^2 = x^3 + 4(u + 1)` in the
/// quadratic extension field.
pub open spec fn g2_curve_equation(x: Fp2Value, y: Fp2Value) -> bool {
    let y2 = fp2_mul(y, y);
    let x3 = fp2_mul(fp2_mul(x, x), x);
    y2.c0 == (x3.c0 + 4) % modulus() && y2.c1 == (x3.c1 + 4) % modulus()
}

/// The point in a G2 wire form is the point at infinity or solves the curve
/// equation.
pub open spec fn g2_wire_on_curve(s: Seq<u8>) -> bool {
    wire_is_identity(s) || g2_curve_equation(g2_wire_x(s), g2_wire_y(s))
}

/// The point in a G1 wire form may enter a pairing: it is the point at
/// infinity, or it is on the curve and in the subgroup.
pub open spec fn g1_wire_valid(s: Seq<u8>) -> bool {
    g1_wire(s) && (wire_is_identity(s) || (g1_wire_on_curve(s) && g1_torsion_free(s)))
}

/// The point in a G2 wire form may enter a pairing: it is the point at
/// infinity, or it is on the curve and in the subgroup.
pub open spec fn g2_wire_valid(s: Seq<u8>) -> bool {
    g2_wire(s) && (wire_is_identity(s) || (g2_wire_on_curve(s) && g2_torsion_free(s)))
}

/// Every pair holds two points that may enter a pairing.
pub open spec fn pairs_valid(pairs: Seq<([u8; 96], [u8; 192])>) -> bool {
    forall|i: int|
        0 <= i < pairs.len() ==> g1_wire_valid(#[trigger] pairs[i].0@) && g2_wire_valid(
            pairs[i].1@,
        )
}

/// The pairs as sequences of bytes.
pub open spec fn pairs_view(pairs: Seq<([u8; 96], [u8; 192])>) -> Seq<(Seq<u8>, Seq<u8>)> {
    pairs.map_values(|p: ([u8; 96], [u8; 192])| (p.0@, p.1@))
}

/// Wire form of the sum that `G1Projective::add` computes of two points.
pub uninterp spec fn g1_sum(a: Seq<u8>, b: Seq<u8>) -> Seq<u8>;

/// Wire form of the point that `G1Projective::double` computes.
pub uninterp spec fn g1_doubled(a: Seq<u8>) -> Seq<u8>;

/// Wire form of the product that the crate's `Mul` computes of a point and a
/// scalar; `k` is the scalar as 64 little-endian bytes.
pub uninterp spec fn g1_product(a: Seq<u8>, k: Seq<u8>) -> Seq<u8>;

/// What `G1Affine::is_torsion_free` answers: whether the point lies in the
/// subgroup of prime order.
pub uninterp spec fn g1_torsion_free(a: Seq<u8>) -> bool;

/// Wire form of the point that the crate's map to the curve, followed by its
/// clearing of the cofactor, gives for a 64-byte field element.
pub uninterp spec fn g1_mapped(u: Seq<u8>) -> Seq<u8>;

/// Wire form of the sum that `G2Projective::add` computes of two points.
pub uninterp spec fn g2_sum(a: Seq<u8>, b: Seq<u8>) -> Seq<u8>;

/// Wire form of the point that `G2Projective::double` computes.
pub uninterp spec fn g2_doubled(a: Seq<u8>) -> Seq<u8>;

/// Wire form of the product that the crate's `Mul` computes of a point and a
/// scalar; `k` is the scalar as 64 little-endian bytes.
pub uninterp spec fn g2_product(a: Seq<u8>, k: Seq<u8>) -> Seq<u8>;

/// What `G2Affine::is_torsion_free` answers: whether the point lies in the
/// subgroup of prime order.
pub uninterp spec fn g2_torsion_free(a: Seq<u8>) -> bool;

/// Wire form of the point that the crate's map to the curve, followed by its
/// clearing of the cofactor, gives for a 128-byte extension-field element.
pub uninterp spec fn g2_mapped(u: Seq<u8>) -> Seq<u8>;

/// Whether the final exponentiation of `multi_miller_loop` over the pairs is
/// the identity of the target group.
pub uninterp spec fn pairing_product_is_one(pairs: Seq<(Seq<u8>, Seq<u8>)>) -> bool;

/// Calls `G1Affine::is_on_curve`, which tests `y^2 - x^3 = 4` and accepts the
/// point at infinity.
#[verifier::external_body]
pub(crate) fn check_curve_g1(a: &[u8; 96]) -> (ok: bool)
    requires
        g1_wire(a@),
    ensures
        ok == g1_wire_on_curve(a@),
{
    G1Affine::from_uncompressed_unchecked(a).unwrap().is_on_curve().into()
}

/// Calls `G1Affine::is_torsion_free`. Nothing is claimed of the answer but
/// that it depends on the point alone.
#[verifier::external_body]
pub(crate) fn check_subgroup_g1(a: &[u8; 96]) -> (ok: bool)
    requires
        g1_wire(a@),
    ensures
        ok == g1_torsion_free(a@),
{
    G1Affine::from_uncompressed_unchecked(a).unwrap().is_torsion_free().into()
}

/// Calls `G1Projective::add` and brings the sum to wire form, which
/// `G1Affine::to_uncompressed` writes with reduced coordinates.
#[verifier::external_body]
pub(crate) fn add_g1(a: &[u8; 96], b: &[u8; 96]) -> (r: [u8; 96])
    requires
        g1_wire(a@),
        g1_wire(b@),
    ensures
        r@ == g1_sum(a@, b@),
        g1_wire(r@),
{
    let p = G1Projective::from(G1Affine::from_uncompressed_unchecked(a).unwrap());
    let q = G1Projective::from(G1Affine::from_uncompressed_unchecked(b).unwrap());
    G1Affine::from(p.add(&q)).to_uncompressed()
}

/// Calls `G1Projective::double` and brings the result to wire form.
#[verifier::external_body]
pub(crate) fn double_g1(a: &[u8; 96]) -> (r: [u8; 96])
    requires
        g1_wire(a@),
    ensures
        r@ == g1_doubled(a@),
        g1_wire(r@),
{
    let p = G1Projective::from(G1Affine::from_uncompressed_unchecked(a).unwrap());
    G1Affine::from(p.double()).to_uncompressed()
}

/// Multiplies a point by the scalar that `Scalar::from_bytes_wide` reads from
/// 64 little-endian bytes, and brings the product to wire form.
#[verifier::external_body]
pub(crate) fn mul_g1(a: &[u8; 96], k: &[u8; 64]) -> (r: [u8; 96])
    requires
        g1_wire(a@),
    ensures
        r@ == g1_product(a@, k@),
        g1_wire(r@),
{
    let p = G1Affine::from_uncompressed_unchecked(a).unwrap();
    G1Affine::from(p * Scalar::from_bytes_wide(k)).to_uncompressed()
}

/// Calls the crate's `map_to_curve` and `clear_h` on the field element that
/// `from_okm` reads from 64 big-endian bytes. The crate documents the result
/// as a point of G1: on the curve and in the subgroup.
#[verifier::external_body]
#[allow(deprecated)]
pub(crate) fn map_g1(u: &[u8; 64]) -> (r: [u8; 96])
    ensures
        r@ == g1_mapped(u@),
        g1_wire(r@),
        g1_wire_on_curve(r@),
        g1_torsion_free(r@),
{
    let fe = HashToField::from_okm(GenericArray::from_slice(u));
    let p: G1Projective = MapToCurve::map_to_curve(&fe);
    G1Affine::from(p.clear_h()).to_uncompressed()
}

/// Calls `G2Affine::is_on_curve`, which tests `y^2 - x^3 = 4(u + 1)` and
/// accepts the point at infinity.
#[verifier::external_body]
pub(crate) fn check_curve_g2(a: &[u8; 192]) -> (ok: bool)
    requires
        g2_wire(a@),
    ensures
        ok == g2_wire_on_curve(a@),
{
    G2Affine::from_uncompressed_unchecked(a).unwrap().is_on_curve().into()
}

/// Calls `G2Affine::is_torsion_free`. Nothing is claimed of the answer but
/// that it depends on the point alone.
#[verifier::external_body]
pub(crate) fn check_subgroup_g2(a: &[u8; 192]) -> (ok: bool)
    requires
        g2_wire(a@),
    ensures
        ok == g2_torsion_free(a@),
{
    G2Affine::from_uncompressed_unchecked(a).unwrap().is_torsion_free().into()
}

/// Calls `G2Projective::add` and brings the sum to wire form, which
/// `G2Affine::to_uncompressed` writes with reduced coordinates.
#[verifier::external_body]
pub(crate) fn add_g2(a: &[u8; 192], b: &[u8; 192]) -> (r: [u8; 192])
    requires
        g2_wire(a@),
        g2_wire(b@),
    ensures
        r@ == g2_sum(a@, b@),
        g2_wire(r@),
{
    let p = G2Projective::from(G2Affine::from_uncompressed_unchecked(a).unwrap());
    let q = G2Projective::from(G2Affine::from_uncompressed_unchecked(b).unwrap());
    G2Affine::from(p.add(&q)).to_uncompressed()
}

/// Calls `G2Projective::double` and brings the result to wire form.
#[verifier::external_body]
pub(crate) fn double_g2(a: &[u8; 192]) -> (r: [u8; 192])
    requires
        g2_wire(a@),
    ensures
        r@ == g2_doubled(a@),
        g2_wire(r@),
{
    let p = G2Projective::from(G2Affine::from_uncompressed_unchecked(a).unwrap());
    G2Affine::from(p.double()).to_uncompressed()
}

/// Multiplies a point by the scalar that `Scalar::from_bytes_wide` reads from
/// 64 little-endian bytes, and brings the product to wire form.
#[verifier::external_body]
pub(crate) fn mul_g2(a: &[u8; 192], k: &[u8; 64]) -> (r: [u8; 192])
    requires
        g2_wire(a@),
    ensures
        r@ == g2_product(a@, k@),
        g2_wire(r@),
{
    let p = G2Affine::from_uncompressed_unchecked(a).unwrap();
    G2Affine::from(p * Scalar::from_bytes_wide(k)).to_uncompressed()
}

/// Calls the crate's `map_to_curve` and `clear_h` on the extension-field
/// element that `from_okm` reads from 128 big-endian bytes, the first 64 for
/// `c0`. The crate documents the result as a point of G2: on the curve and in
/// the subgroup.
#[verifier::external_body]
#[allow(deprecated)]
pub(crate) fn map_g2(u: &[u8; 128]) -> (r: [u8; 192])
    ensures
        r@ == g2_mapped(u@),
        g2_wire(r@),
        g2_wire_on_curve(r@),
        g2_torsion_free(r@),
{
    let fe = HashToField::from_okm(GenericArray::from_slice(u));
    let p: G2Projective = MapToCurve::map_to_curve(&fe);
    G2Affine::from(p.clear_h()).to_uncompressed()
}

/// Calls `multi_miller_loop` on all the pairs, then `final_exponentiation`
/// once, and compares the result with `Gt::identity`. A pair that holds a
/// point at infinity leaves the product as it is. Every point must be at
/// infinity, or on its curve and in its subgroup: the final exponentiation
/// inverts the value of the loop, which the crate knows to be nonzero for
/// such points alone.
#[verifier::external_body]
pub(crate) fn pairing_product_is_identity(pairs: &Vec<([u8; 96], [u8; 192])>) -> (one: bool)
    requires
        pairs_valid(pairs@),
    ensures
        one == pairing_product_is_one(pairs_view(pairs@)),
{
    let points: Vec<(G1Affine, G2Prepared)> = pairs.iter().map(|(p, q)| (
        G1Affine::from_uncompressed_unchecked(p).unwrap(),
        G2Prepared::from(G2Affine::from_uncompressed_unchecked(q).unwrap()),
    )).collect();
    let terms: Vec<(&G1Affine, &G2Prepared)> = points.iter().map(|(p, q)| (p, q)).collect();
    multi_miller_loop(&terms).final_exponentiation() == Gt::identity()
}

} // verus!
