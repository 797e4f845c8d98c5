//! The group G1: points of the curve over the base field.
use crate::backend::{
    add_g1, check_curve_g1, check_subgroup_g1, double_g1, g1_curve_equation, g1_doubled, g1_product,
    g1_sum, g1_torsion_free, g1_wire, g1_wire_x, g1_wire_y, mul_g1, wire_is_identity,
};
use crate::bytes::{
    all_zero, be_bytes, be_nat, is_zero, less_than, lemma_be_bytes_len, lemma_be_bytes_of_be_nat,
    lemma_be_nat_leading_byte, lemma_be_nat_of_be_bytes, pow256, read_array, write_at, zeros,
};
use crate::error::ErrorKind;
use crate::field::{
    decode_fp, decode_fp_spec, encode_fp, encode_fp_spec, fp_canonical, lemma_decode_encode_fp,
    lemma_modulus_fits, lemma_zero_is_canonical, modulus, Fp, FP_ENCODED_LEN,
};
use crate::group::{validate_point, CurvePoint};
use crate::scalar::{wide_scalar, Scalar};
use vstd::prelude::*;
use vstd::slice::slice_subrange;

verus! {

/// Width of an encoded G1 point: x, then y.
pub const G1_ENCODED_LEN: usize = 128;

/// A point of the plane over the base field, or the point at infinity.
pub enum G1Value {
    Identity,
    Affine { x: nat, y: nat },
}

/// Both coordinates are below the modulus.
pub open spec fn g1_reduced(p: G1Value) -> bool {
    match p {
        G1Value::Identity => true,
        G1Value::Affine { x, y } => x < modulus() && y < modulus(),
    }
}

/// The point is the point at infinity or solves `y^2 = x^3 + 4`.
pub open spec fn g1_on_curve(p: G1Value) -> bool {
    match p {
        G1Value::Identity => true,
        G1Value::Affine { x, y } => g1_curve_equation(x, y),
    }
}

/// The form in which a point is handed to the curve arithmetic.
pub open spec fn g1_to_wire(p: G1Value) -> Seq<u8> {
    match p {
        G1Value::Identity => seq![0x40u8] + zeros(95),
        G1Value::Affine { x, y } => be_bytes(x, 48) + be_bytes(y, 48),
    }
}

/// The point that the curve arithmetic hands back.
pub open spec fn g1_from_wire(s: Seq<u8>) -> G1Value {
    if wire_is_identity(s) {
        G1Value::Identity
    } else {
        G1Value::Affine { x: g1_wire_x(s), y: g1_wire_y(s) }
    }
}

/// The point lies in the subgroup of prime order. The point at infinity
/// does, and the curve arithmetic is not asked about it.
pub open spec fn g1_in_subgroup(p: G1Value) -> bool {
    p is Identity || g1_torsion_free(g1_to_wire(p))
}

/// The sum of two points. The point at infinity is the neutral element and
/// needs no arithmetic. Two other points are handed to the curve arithmetic
/// with the smaller wire form first, so that a sum does not depend on the
/// order of its operands.
pub open spec fn g1_sum_value(p: G1Value, q: G1Value) -> G1Value {
    if p is Identity {
        q
    } else if q is Identity {
        p
    } else if be_nat(g1_to_wire(q)) < be_nat(g1_to_wire(p)) {
        g1_from_wire(g1_sum(g1_to_wire(q), g1_to_wire(p)))
    } else {
        g1_from_wire(g1_sum(g1_to_wire(p), g1_to_wire(q)))
    }
}

/// A point added to itself.
pub open spec fn g1_doubled_value(p: G1Value) -> G1Value {
    g1_from_wire(g1_doubled(g1_to_wire(p)))
}

/// A point multiplied by a scalar. The product with zero is the point at
/// infinity and the product with one is the point itself: neither needs any
/// arithmetic.
pub open spec fn g1_product_value(p: G1Value, k: nat) -> G1Value {
    if k == 0 {
        G1Value::Identity
    } else if k == 1 {
        p
    } else {
        g1_from_wire(g1_product(g1_to_wire(p), wide_scalar(k)))
    }
}

/// The 128-byte encoding of a point: the point at infinity is all zeros.
pub open spec fn encode_g1_spec(p: G1Value) -> Seq<u8> {
    match p {
        G1Value::Identity => zeros(G1_ENCODED_LEN as nat),
        G1Value::Affine { x, y } => encode_fp_spec(x) + encode_fp_spec(y),
    }
}

/// What reading the coordinates of an encoded point gives, before any test
/// of the curve equation.
pub open spec fn parse_g1_spec(s: Seq<u8>) -> Result<G1Value, ErrorKind> {
    if s.len() == 0 {
        Err(ErrorKind::EmptyInput)
    } else if s.len() != G1_ENCODED_LEN {
        Err(ErrorKind::InvalidLength)
    } else if all_zero(s) {
        Ok(G1Value::Identity)
    } else {
        match decode_fp_spec(s.take(FP_ENCODED_LEN as int)) {
            Err(e) => Err(e),
            Ok(x) => match decode_fp_spec(s.skip(FP_ENCODED_LEN as int)) {
                Err(e) => Err(e),
                Ok(y) => Ok(G1Value::Affine { x, y }),
            },
        }
    }
}

/// What decoding an encoded point gives: its coordinates, if they are
/// canonical and the point is on the curve.
pub open spec fn decode_g1_spec(s: Seq<u8>) -> Result<G1Value, ErrorKind> {
    match parse_g1_spec(s) {
        Err(e) => Err(e),
        Ok(p) => if g1_on_curve(p) {
            Ok(p)
        } else {
            Err(ErrorKind::PointNotOnCurve)
        },
    }
}

/// What decoding a point for an operation gives: its coordinates, if they
/// are canonical, the point is on the curve and, where the operation asks for
/// it, in the subgroup.
pub open spec fn decode_g1_checked_spec(s: Seq<u8>, require_subgroup: bool) -> Result<
    G1Value,
    ErrorKind,
> {
    match parse_g1_spec(s) {
        Err(e) => Err(e),
        Ok(p) => if !g1_on_curve(p) {
            Err(ErrorKind::PointNotOnCurve)
        } else if require_subgroup && !g1_in_subgroup(p) {
            Err(ErrorKind::PointNotInSubgroup)
        } else {
            Ok(p)
        },
    }
}

/// Both coordinates of an encoded point are canonical field elements. All
/// zeros, the encoding of the point at infinity, is such an encoding.
pub open spec fn g1_encoding_canonical(s: Seq<u8>) -> bool {
    &&& s.len() == G1_ENCODED_LEN
    &&& fp_canonical(s.take(FP_ENCODED_LEN as int))
    &&& fp_canonical(s.skip(FP_ENCODED_LEN as int))
}

/// The encoding of a point with reduced coordinates is canonical.
pub proof fn lemma_g1_encoding_canonical(p: G1Value)
    requires
        g1_reduced(p),
    ensures
        g1_encoding_canonical(encode_g1_spec(p)),
{
    let s = encode_g1_spec(p);
    match p {
        G1Value::Identity => {
            lemma_zero_is_canonical();
            assert(s.take(64) =~= zeros(64));
            assert(s.skip(64) =~= zeros(64));
        },
        G1Value::Affine { x, y } => {
            lemma_be_bytes_len(x, 48);
            lemma_be_bytes_len(y, 48);
            lemma_decode_encode_fp(x);
            lemma_decode_encode_fp(y);
            assert(s.take(64) =~= encode_fp_spec(x));
            assert(s.skip(64) =~= encode_fp_spec(y));
        },
    }
}

/// A wire form that starts with the byte 0x40 holds the point at infinity.
pub proof fn lemma_g1_wire_identity(s: Seq<u8>)
    requires
        g1_wire(s),
    ensures
        wire_is_identity(s) <==> s[0] == 0x40,
{
    if s[0] == 0x40 && !wire_is_identity(s) {
        let xs = s.subrange(0, 48);
        lemma_be_nat_leading_byte(xs);
        lemma_high_byte_exceeds_modulus();
    }
}

/// A 48-byte number whose first byte is 0x40 is above the modulus.
pub proof fn lemma_high_byte_exceeds_modulus()
    ensures
        0x40 * pow256(47) > modulus(),
{
    reveal_with_fuel(pow256, 48);
}

/// Handing a point to the curve arithmetic and taking it back changes
/// nothing.
pub proof fn lemma_g1_wire_of_value(p: G1Value)
    requires
        g1_reduced(p),
    ensures
        g1_wire(g1_to_wire(p)),
        g1_from_wire(g1_to_wire(p)) == p,
{
    let s = g1_to_wire(p);
    match p {
        G1Value::Identity => {
            assert(s.skip(1) =~= zeros(95));
        },
        G1Value::Affine { x, y } => {
            lemma_be_bytes_len(x, 48);
            lemma_be_bytes_len(y, 48);
            lemma_modulus_fits();
            lemma_be_nat_of_be_bytes(x, 48);
            lemma_be_nat_of_be_bytes(y, 48);
            assert(s.subrange(0, 48) =~= be_bytes(x, 48));
            assert(s.subrange(48, 96) =~= be_bytes(y, 48));
            if s[0] == 0x40 {
                lemma_be_nat_leading_byte(s.subrange(0, 48));
                lemma_high_byte_exceeds_modulus();
            }
        },
    }
}

/// Every well-formed wire form is the wire form of the point it holds.
pub proof fn lemma_g1_value_of_wire(s: Seq<u8>)
    requires
        g1_wire(s),
    ensures
        g1_reduced(g1_from_wire(s)),
        g1_to_wire(g1_from_wire(s)) == s,
{
    if wire_is_identity(s) {
        assert(seq![0x40u8] + zeros(95) =~= s) by {
            assert forall|i: int| 1 <= i < 96 implies s[i] == 0 by {
                assert(s.skip(1)[i - 1] == s[i]);
            }
        }
    } else {
        lemma_be_bytes_of_be_nat(s.subrange(0, 48));
        lemma_be_bytes_of_be_nat(s.subrange(48, 96));
        assert(s.subrange(0, 48) + s.subrange(48, 96) =~= s);
    }
}

/// A point of the plane over the base field with reduced coordinates, or the
/// point at infinity. Nothing more is promised of a value of this type:
/// whether it is on the curve, and in the subgroup, is for validation to
/// find out.
#[derive(Clone, Copy, Debug)]
pub struct G1Point {
    x: Fp,
    y: Fp,
    infinity: bool,
}

impl View for G1Point {
    type V = G1Value;

    closed spec fn view(&self) -> G1Value {
        if self.infinity {
            G1Value::Identity
        } else {
            G1Value::Affine { x: self.x@, y: self.y@ }
        }
    }
}

impl G1Point {
    /// The point with the given coordinates.
    pub fn from_coordinates(x: Fp, y: Fp) -> (p: G1Point)
        ensures
            p@ == (G1Value::Affine { x: x@, y: y@ }),
    {
        G1Point { x, y, infinity: false }
    }

    /// Whether this is the point at infinity.
    pub fn is_identity(&self) -> (identity: bool)
        ensures
            identity == (self@ is Identity),
    {
        self.infinity
    }

    /// The point in the form that the curve arithmetic takes.
    pub fn to_wire(&self) -> (wire: [u8; 96])
        ensures
            wire@ == g1_to_wire(self@),
            g1_wire(wire@),
            g1_reduced(self@),
    {
        let mut wire = [0u8; 96];
        if self.infinity {
            wire[0] = 0x40;
            proof {
                assert(wire@ =~= seq![0x40u8] + zeros(95));
            }
        } else {
            let x = self.x.to_be_bytes();
            let y = self.y.to_be_bytes();
            write_at(&mut wire, 0, x.as_slice());
            write_at(&mut wire, 48, y.as_slice());
            proof {
                lemma_be_bytes_len(self.x@, 48);
                lemma_be_bytes_len(self.y@, 48);
                assert(wire@ =~= be_bytes(self.x@, 48) + be_bytes(self.y@, 48));
            }
        }
        proof {
            lemma_g1_wire_of_value(self@);
        }
        wire
    }

    /// The point that the curve arithmetic has handed back.
    pub fn from_wire(wire: &[u8; 96]) -> (p: G1Point)
        requires
            g1_wire(wire@),
        ensures
            p@ == g1_from_wire(wire@),
            g1_reduced(p@),
    {
        proof {
            lemma_g1_wire_identity(wire@);
            lemma_g1_value_of_wire(wire@);
        }
        if wire[0] == 0x40 {
            G1Point { x: Fp::zero(), y: Fp::zero(), infinity: true }
        } else {
            let x: [u8; 48] = read_array(wire.as_slice(), 0);
            let y: [u8; 48] = read_array(wire.as_slice(), 48);
            G1Point { x: Fp::from_reduced(x), y: Fp::from_reduced(y), infinity: false }
        }
    }
}

impl CurvePoint for G1Point {
    type Value = G1Value;

    open spec fn value(&self) -> G1Value {
        self@
    }

    open spec fn identity_value() -> G1Value {
        G1Value::Identity
    }

    open spec fn sum(a: G1Value, b: G1Value) -> G1Value {
        g1_sum_value(a, b)
    }

    open spec fn doubled(a: G1Value) -> G1Value {
        g1_doubled_value(a)
    }

    open spec fn product(a: G1Value, k: nat) -> G1Value {
        g1_product_value(a, k)
    }

    open spec fn reduced(a: G1Value) -> bool {
        g1_reduced(a)
    }

    open spec fn on_curve(a: G1Value) -> bool {
        g1_on_curve(a)
    }

    open spec fn in_subgroup(a: G1Value) -> bool {
        g1_in_subgroup(a)
    }

    open spec fn encoded_len() -> nat {
        G1_ENCODED_LEN as nat
    }

    open spec fn parse_spec(bytes: Seq<u8>) -> Result<G1Value, ErrorKind> {
        parse_g1_spec(bytes)
    }

    open spec fn encode_spec(p: G1Value) -> Seq<u8> {
        encode_g1_spec(p)
    }

    fn width() -> (n: usize) {
        G1_ENCODED_LEN
    }

    fn parse(bytes: &[u8]) -> (res: Result<G1Point, ErrorKind>) {
        parse_g1(bytes)
    }

    fn identity() -> (p: G1Point) {
        G1Point { x: Fp::zero(), y: Fp::zero(), infinity: true }
    }

    fn is_identity(&self) -> (identity: bool) {
        self.infinity
    }

    fn duplicate(&self) -> (p: G1Point) {
        proof {
            use_type_invariant(&self.x);
            use_type_invariant(&self.y);
        }
        *self
    }

    fn plus(&self, other: &G1Point) -> (p: G1Point) {
        proof {
            use_type_invariant(&self.x);
            use_type_invariant(&self.y);
        }
        proof {
            use_type_invariant(&other.x);
            use_type_invariant(&other.y);
        }
        if self.infinity {
            return *other;
        }
        if other.infinity {
            return *self;
        }
        let a = self.to_wire();
        let b = other.to_wire();
        let sum = if less_than(b.as_slice(), a.as_slice()) {
            add_g1(&b, &a)
        } else {
            add_g1(&a, &b)
        };
        G1Point::from_wire(&sum)
    }

    fn twice(&self) -> (p: G1Point) {
        let doubled = double_g1(&self.to_wire());
        G1Point::from_wire(&doubled)
    }

    fn times(&self, k: &Scalar) -> (p: G1Point) {
        if k.is_zero() {
            return G1Point::identity();
        }
        if k.is_one() {
            proof {
                use_type_invariant(&self.x);
                use_type_invariant(&self.y);
            }
            return *self;
        }
        let product = mul_g1(&self.to_wire(), &k.to_wide());
        G1Point::from_wire(&product)
    }

    fn is_on_curve(&self) -> (ok: bool) {
        let wire = self.to_wire();
        proof {
            lemma_g1_wire_of_value(self@);
        }
        check_curve_g1(&wire)
    }

    fn is_in_subgroup(&self) -> (ok: bool) {
        self.infinity || check_subgroup_g1(&self.to_wire())
    }
}

/// Reads the coordinates of an encoded point. All zeros is the point at
/// infinity; any other input must hold two canonical field elements.
pub fn parse_g1(bytes: &[u8]) -> (res: Result<G1Point, ErrorKind>)
    ensures
        match res {
            Ok(p) => parse_g1_spec(bytes@) == Ok::<G1Value, ErrorKind>(p@) && g1_reduced(p@),
            Err(e) => parse_g1_spec(bytes@) == Err::<G1Value, ErrorKind>(e),
        },
{
    if bytes.len() == 0 {
        return Err(ErrorKind::EmptyInput);
    }
    if bytes.len() != G1_ENCODED_LEN {
        return Err(ErrorKind::InvalidLength);
    }
    if is_zero(bytes) {
        return Ok(G1Point::identity());
    }
    let first = slice_subrange(bytes, 0, FP_ENCODED_LEN);
    let second = slice_subrange(bytes, FP_ENCODED_LEN, G1_ENCODED_LEN);
    proof {
        assert(first@ =~= bytes@.take(FP_ENCODED_LEN as int));
        assert(second@ =~= bytes@.skip(FP_ENCODED_LEN as int));
    }
    let x = match decode_fp(first) {
        Ok(x) => x,
        Err(e) => {
            return Err(e);
        },
    };
    let y = match decode_fp(second) {
        Ok(y) => y,
        Err(e) => {
            return Err(e);
        },
    };
    Ok(G1Point::from_coordinates(x, y))
}

/// Decodes a point: reads its coordinates and rejects a point that is not on
/// the curve. The point at infinity is accepted without that test.
pub fn decode_g1(bytes: &[u8]) -> (res: Result<G1Point, ErrorKind>)
    ensures
        match res {
            Ok(p) => decode_g1_spec(bytes@) == Ok::<G1Value, ErrorKind>(p@) && g1_reduced(p@)
                && g1_on_curve(p@),
            Err(e) => decode_g1_spec(bytes@) == Err::<G1Value, ErrorKind>(e),
        },
{
    let p = match parse_g1(bytes) {
        Ok(p) => p,
        Err(e) => {
            return Err(e);
        },
    };
    if p.is_identity() {
        return Ok(p);
    }
    match validate_point(&p, false) {
        Ok(()) => Ok(p),
        Err(e) => Err(e),
    }
}

/// Encodes a point as its two encoded coordinates, the point at infinity as
/// all zeros.
pub fn encode_g1(p: &G1Point) -> (out: [u8; 128])
    ensures
        out@ == encode_g1_spec(p@),
        g1_encoding_canonical(out@),
{
    proof {
        use_type_invariant(&p.x);
        use_type_invariant(&p.y);
        lemma_g1_encoding_canonical(p@);
    }
    let mut out = [0u8; 128];
    if p.infinity {
        proof {
            assert(out@ =~= zeros(G1_ENCODED_LEN as nat));
        }
    } else {
        let x = encode_fp(&p.x);
        let y = encode_fp(&p.y);
        write_at(&mut out, 0, x.as_slice());
        write_at(&mut out, FP_ENCODED_LEN, y.as_slice());
        proof {
            lemma_be_bytes_len(p.x@, 48);
            lemma_be_bytes_len(p.y@, 48);
            assert(out@ =~= encode_fp_spec(p.x@) + encode_fp_spec(p.y@));
        }
    }
    out
}

} // verus!
