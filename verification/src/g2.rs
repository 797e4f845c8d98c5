//! The group G2: points of the twisted curve over the quadratic extension
//! field.
use crate::backend::{
    add_g2, check_curve_g2, check_subgroup_g2, double_g2, g2_curve_equation, g2_doubled,
    g2_product, g2_sum, g2_torsion_free, g2_wire, g2_wire_x, g2_wire_y, mul_g2, wire_is_identity,
};
use crate::bytes::{
    all_zero, be_bytes, be_nat, is_zero, less_than, lemma_be_bytes_len, lemma_be_bytes_of_be_nat,
    lemma_be_nat_leading_byte, lemma_be_nat_of_be_bytes, read_array, write_at, zeros,
};
use crate::error::ErrorKind;
use crate::field::{
    decode_fp2, decode_fp2_spec, encode_fp2, encode_fp2_spec, encode_fp_spec, fp2_reduced,
    fp_canonical, lemma_decode_encode_fp, lemma_modulus_fits, lemma_zero_is_canonical, Fp, Fp2,
    Fp2Value, FP_ENCODED_LEN,
};
use crate::g1::lemma_high_byte_exceeds_modulus;
use crate::group::{validate_point, CurvePoint};
use crate::scalar::{wide_scalar, Scalar};
use vstd::prelude::*;
use vstd::slice::slice_subrange;

verus! {

/// Width of an encoded G2 point: x, then y, each an extension-field element.
pub const G2_ENCODED_LEN: usize = 256;

/// A point of the plane over the extension field, or the point at infinity.
pub enum G2Value {
    Identity,
    Affine { x: Fp2Value, y: Fp2Value },
}

/// All four components are below the modulus.
pub open spec fn g2_reduced(p: G2Value) -> bool {
    match p {
        G2Value::Identity => true,
        G2Value::Affine { x, y } => fp2_reduced(x) && fp2_reduced(y),
    }
}

/// The point is the point at infinity or solves `y^2 = x^3 + 4(u + 1)`.
pub open spec fn g2_on_curve(p: G2Value) -> bool {
    match p {
        G2Value::Identity => true,
        G2Value::Affine { x, y } => g2_curve_equation(x, y),
    }
}

/// The form in which a point is handed to the curve arithmetic: within each
/// coordinate the `u` component comes first.
pub open spec fn g2_to_wire(p: G2Value) -> Seq<u8> {
    match p {
        G2Value::Identity => seq![0x40u8] + zeros(191),
        G2Value::Affine { x, y } => be_bytes(x.c1, 48) + be_bytes(x.c0, 48) + be_bytes(y.c1, 48)
            + be_bytes(y.c0, 48),
    }
}

/// The point that the curve arithmetic hands back.
pub open spec fn g2_from_wire(s: Seq<u8>) -> G2Value {
    if wire_is_identity(s) {
        G2Value::Identity
    } else {
        G2Value::Affine { x: g2_wire_x(s), y: g2_wire_y(s) }
    }
}

/// The point lies in the subgroup of prime order. The point at infinity
/// does, and the curve arithmetic is not asked about it.
pub open spec fn g2_in_subgroup(p: G2Value) -> bool {
    p is Identity || g2_torsion_free(g2_to_wire(p))
}

/// The sum of two points. The point at infinity is the neutral element and
/// needs no arithmetic. Two other points are handed to the curve arithmetic
/// with the smaller wire form first, so that a sum does not depend on the
/// order of its operands.
pub open spec fn g2_sum_value(p: G2Value, q: G2Value) -> G2Value {
    if p is Identity {
        q
    } else if q is Identity {
        p
    } else if be_nat(g2_to_wire(q)) < be_nat(g2_to_wire(p)) {
        g2_from_wire(g2_sum(g2_to_wire(q), g2_to_wire(p)))
    } else {
        g2_from_wire(g2_sum(g2_to_wire(p), g2_to_wire(q)))
    }
}

/// A point added to itself.
pub open spec fn g2_doubled_value(p: G2Value) -> G2Value {
    g2_from_wire(g2_doubled(g2_to_wire(p)))
}

/// A point multiplied by a scalar. The product with zero is the point at
/// infinity and the product with one is the point itself: neither needs any
/// arithmetic.
pub open spec fn g2_product_value(p: G2Value, k: nat) -> G2Value {
    if k == 0 {
        G2Value::Identity
    } else if k == 1 {
        p
    } else {
        g2_from_wire(g2_product(g2_to_wire(p), wide_scalar(k)))
    }
}

/// The 256-byte encoding of a point: the point at infinity is all zeros.
pub open spec fn encode_g2_spec(p: G2Value) -> Seq<u8> {
    match p {
        G2Value::Identity => zeros(G2_ENCODED_LEN as nat),
        G2Value::Affine { x, y } => encode_fp2_spec(x) + encode_fp2_spec(y),
    }
}

/// What reading the coordinates of an encoded point gives, before any test
/// of the curve equation.
pub open spec fn parse_g2_spec(s: Seq<u8>) -> Result<G2Value, ErrorKind> {
    if s.len() == 0 {
        Err(ErrorKind::EmptyInput)
    } else if s.len() != G2_ENCODED_LEN {
        Err(ErrorKind::InvalidLength)
    } else if all_zero(s) {
        Ok(G2Value::Identity)
    } else {
        match decode_fp2_spec(s.take(2 * FP_ENCODED_LEN as int)) {
            Err(e) => Err(e),
            Ok(x) => match decode_fp2_spec(s.skip(2 * FP_ENCODED_LEN as int)) {
                Err(e) => Err(e),
                Ok(y) => Ok(G2Value::Affine { x, y }),
            },
        }
    }
}

/// What decoding an encoded point gives: its coordinates, if they are
/// canonical and the point is on the curve.
pub open spec fn decode_g2_spec(s: Seq<u8>) -> Result<G2Value, ErrorKind> {
    match parse_g2_spec(s) {
        Err(e) => Err(e),
        Ok(p) => if g2_on_curve(p) {
            Ok(p)
        } else {
            Err(ErrorKind::PointNotOnCurve)
        },
    }
}

/// What decoding a point for an operation gives: its coordinates, if they
/// are canonical, the point is on the curve and, where the operation asks for
/// it, in the subgroup.
pub open spec fn decode_g2_checked_spec(s: Seq<u8>, require_subgroup: bool) -> Result<
    G2Value,
    ErrorKind,
> {
    match parse_g2_spec(s) {
        Err(e) => Err(e),
        Ok(p) => if !g2_on_curve(p) {
            Err(ErrorKind::PointNotOnCurve)
        } else if require_subgroup && !g2_in_subgroup(p) {
            Err(ErrorKind::PointNotInSubgroup)
        } else {
            Ok(p)
        },
    }
}

/// All four coordinates of an encoded point are canonical field elements.
/// All zeros, the encoding of the point at infinity, is such an encoding.
pub open spec fn g2_encoding_canonical(s: Seq<u8>) -> bool {
    &&& s.len() == G2_ENCODED_LEN
    &&& fp_canonical(s.subrange(0, 64))
    &&& fp_canonical(s.subrange(64, 128))
    &&& fp_canonical(s.subrange(128, 192))
    &&& fp_canonical(s.subrange(192, 256))
}

/// The encoding of a point with reduced coordinates is canonical.
pub proof fn lemma_g2_encoding_canonical(p: G2Value)
    requires
        g2_reduced(p),
    ensures
        g2_encoding_canonical(encode_g2_spec(p)),
{
    let s = encode_g2_spec(p);
    match p {
        G2Value::Identity => {
            lemma_zero_is_canonical();
            assert(s.subrange(0, 64) =~= zeros(64));
            assert(s.subrange(64, 128) =~= zeros(64));
            assert(s.subrange(128, 192) =~= zeros(64));
            assert(s.subrange(192, 256) =~= zeros(64));
        },
        G2Value::Affine { x, y } => {
            lemma_be_bytes_len(x.c0, 48);
            lemma_be_bytes_len(x.c1, 48);
            lemma_be_bytes_len(y.c0, 48);
            lemma_be_bytes_len(y.c1, 48);
            lemma_decode_encode_fp(x.c0);
            lemma_decode_encode_fp(x.c1);
            lemma_decode_encode_fp(y.c0);
            lemma_decode_encode_fp(y.c1);
            assert(s.subrange(0, 64) =~= encode_fp_spec(x.c0));
            assert(s.subrange(64, 128) =~= encode_fp_spec(x.c1));
            assert(s.subrange(128, 192) =~= encode_fp_spec(y.c0));
            assert(s.subrange(192, 256) =~= encode_fp_spec(y.c1));
        },
    }
}

/// A wire form that starts with the byte 0x40 holds the point at infinity.
pub proof fn lemma_g2_wire_identity(s: Seq<u8>)
    requires
        g2_wire(s),
    ensures
        wire_is_identity(s) <==> s[0] == 0x40,
{
    if s[0] == 0x40 && !wire_is_identity(s) {
        lemma_be_nat_leading_byte(s.subrange(0, 48));
        lemma_high_byte_exceeds_modulus();
    }
}

/// Handing a point to the curve arithmetic and taking it back changes
/// nothing.
pub proof fn lemma_g2_wire_of_value(p: G2Value)
    requires
        g2_reduced(p),
    ensures
        g2_wire(g2_to_wire(p)),
        g2_from_wire(g2_to_wire(p)) == p,
{
    let s = g2_to_wire(p);
    match p {
        G2Value::Identity => {
            assert(s.skip(1) =~= zeros(191));
        },
        G2Value::Affine { x, y } => {
            lemma_be_bytes_len(x.c0, 48);
            lemma_be_bytes_len(x.c1, 48);
            lemma_be_bytes_len(y.c0, 48);
            lemma_be_bytes_len(y.c1, 48);
            lemma_modulus_fits();
            lemma_be_nat_of_be_bytes(x.c0, 48);
            lemma_be_nat_of_be_bytes(x.c1, 48);
            lemma_be_nat_of_be_bytes(y.c0, 48);
            lemma_be_nat_of_be_bytes(y.c1, 48);
            assert(s.subrange(0, 48) =~= be_bytes(x.c1, 48));
            assert(s.subrange(48, 96) =~= be_bytes(x.c0, 48));
            assert(s.subrange(96, 144) =~= be_bytes(y.c1, 48));
            assert(s.subrange(144, 192) =~= be_bytes(y.c0, 48));
            if s[0] == 0x40 {
                lemma_be_nat_leading_byte(s.subrange(0, 48));
                lemma_high_byte_exceeds_modulus();
            }
        },
    }
}

/// Every well-formed wire form is the wire form of the point it holds.
pub proof fn lemma_g2_value_of_wire(s: Seq<u8>)
    requires
        g2_wire(s),
    ensures
        g2_reduced(g2_from_wire(s)),
        g2_to_wire(g2_from_wire(s)) == s,
{
    if wire_is_identity(s) {
        assert(seq![0x40u8] + zeros(191) =~= s) by {
            assert forall|i: int| 1 <= i < 192 implies s[i] == 0 by {
                assert(s.skip(1)[i - 1] == s[i]);
            }
        }
    } else {
        lemma_be_bytes_of_be_nat(s.subrange(0, 48));
        lemma_be_bytes_of_be_nat(s.subrange(48, 96));
        lemma_be_bytes_of_be_nat(s.subrange(96, 144));
        lemma_be_bytes_of_be_nat(s.subrange(144, 192));
        assert(s.subrange(0, 48) + s.subrange(48, 96) + s.subrange(96, 144) + s.subrange(144, 192)
            =~= s);
    }
}

/// A point of the plane over the extension field with reduced coordinates,
/// or the point at infinity. Whether it is on the curve, and in the subgroup,
/// is for validation to find out.
#[derive(Clone, Copy, Debug)]
pub struct G2Point {
    x: Fp2,
    y: Fp2,
    infinity: bool,
}

impl View for G2Point {
    type V = G2Value;

    closed spec fn view(&self) -> G2Value {
        if self.infinity {
            G2Value::Identity
        } else {
            G2Value::Affine { x: self.x@, y: self.y@ }
        }
    }
}

impl G2Point {
    /// The point with the given coordinates.
    pub fn from_coordinates(x: Fp2, y: Fp2) -> (p: G2Point)
        ensures
            p@ == (G2Value::Affine { x: x@, y: y@ }),
    {
        G2Point { x, y, infinity: false }
    }

    /// Whether this is the point at infinity.
    pub fn is_identity(&self) -> (identity: bool)
        ensures
            identity == (self@ is Identity),
    {
        self.infinity
    }

    /// The point in the form that the curve arithmetic takes.
    pub fn to_wire(&self) -> (wire: [u8; 192])
        ensures
            wire@ == g2_to_wire(self@),
            g2_wire(wire@),
            g2_reduced(self@),
    {
        let mut wire = [0u8; 192];
        if self.infinity {
            wire[0] = 0x40;
            proof {
                assert(wire@ =~= seq![0x40u8] + zeros(191));
            }
        } else {
            let x0 = self.x.c0.to_be_bytes();
            let x1 = self.x.c1.to_be_bytes();
            let y0 = self.y.c0.to_be_bytes();
            let y1 = self.y.c1.to_be_bytes();
            write_at(&mut wire, 0, x1.as_slice());
            write_at(&mut wire, 48, x0.as_slice());
            write_at(&mut wire, 96, y1.as_slice());
            write_at(&mut wire, 144, y0.as_slice());
            proof {
                lemma_be_bytes_len(self.x.c0@, 48);
                lemma_be_bytes_len(self.x.c1@, 48);
                lemma_be_bytes_len(self.y.c0@, 48);
                lemma_be_bytes_len(self.y.c1@, 48);
                assert(wire@ =~= be_bytes(self.x.c1@, 48) + be_bytes(self.x.c0@, 48) + be_bytes(
                    self.y.c1@,
                    48,
                ) + be_bytes(self.y.c0@, 48));
            }
        }
        proof {
            lemma_g2_wire_of_value(self@);
        }
        wire
    }

    /// The point that the curve arithmetic has handed back.
    pub fn from_wire(wire: &[u8; 192]) -> (p: G2Point)
        requires
            g2_wire(wire@),
        ensures
            p@ == g2_from_wire(wire@),
            g2_reduced(p@),
    {
        proof {
            lemma_g2_wire_identity(wire@);
            lemma_g2_value_of_wire(wire@);
        }
        if wire[0] == 0x40 {
            G2Point::identity()
        } else {
            let x1: [u8; 48] = read_array(wire.as_slice(), 0);
            let x0: [u8; 48] = read_array(wire.as_slice(), 48);
            let y1: [u8; 48] = read_array(wire.as_slice(), 96);
            let y0: [u8; 48] = read_array(wire.as_slice(), 144);
            G2Point {
                x: Fp2 { c0: Fp::from_reduced(x0), c1: Fp::from_reduced(x1) },
                y: Fp2 { c0: Fp::from_reduced(y0), c1: Fp::from_reduced(y1) },
                infinity: false,
            }
        }
    }
}

impl CurvePoint for G2Point {
    type Value = G2Value;

    open spec fn value(&self) -> G2Value {
        self@
    }

    open spec fn identity_value() -> G2Value {
        G2Value::Identity
    }

    open spec fn sum(a: G2Value, b: G2Value) -> G2Value {
        g2_sum_value(a, b)
    }

    open spec fn doubled(a: G2Value) -> G2Value {
        g2_doubled_value(a)
    }

    open spec fn product(a: G2Value, k: nat) -> G2Value {
        g2_product_value(a, k)
    }

    open spec fn reduced(a: G2Value) -> bool {
        g2_reduced(a)
    }

    open spec fn on_curve(a: G2Value) -> bool {
        g2_on_curve(a)
    }

    open spec fn in_subgroup(a: G2Value) -> bool {
        g2_in_subgroup(a)
    }

    open spec fn encoded_len() -> nat {
        G2_ENCODED_LEN as nat
    }

    open spec fn parse_spec(bytes: Seq<u8>) -> Result<G2Value, ErrorKind> {
        parse_g2_spec(bytes)
    }

    open spec fn encode_spec(p: G2Value) -> Seq<u8> {
        encode_g2_spec(p)
    }

    fn width() -> (n: usize) {
        G2_ENCODED_LEN
    }

    fn parse(bytes: &[u8]) -> (res: Result<G2Point, ErrorKind>) {
        parse_g2(bytes)
    }

    fn identity() -> (p: G2Point) {
        let zero = Fp2 { c0: Fp::zero(), c1: Fp::zero() };
        G2Point { x: zero, y: zero, infinity: true }
    }

    fn is_identity(&self) -> (identity: bool) {
        self.infinity
    }

    fn duplicate(&self) -> (p: G2Point) {
        proof {
            use_type_invariant(&self.x.c0);
            use_type_invariant(&self.x.c1);
            use_type_invariant(&self.y.c0);
            use_type_invariant(&self.y.c1);
        }
        *self
    }

    fn plus(&self, other: &G2Point) -> (p: G2Point) {
        proof {
            use_type_invariant(&self.x.c0);
            use_type_invariant(&self.x.c1);
            use_type_invariant(&self.y.c0);
            use_type_invariant(&self.y.c1);
        }
        proof {
            use_type_invariant(&other.x.c0);
            use_type_invariant(&other.x.c1);
            use_type_invariant(&other.y.c0);
            use_type_invariant(&other.y.c1);
        }
        if self.infinity {
            return *other;
        }
        if other.infinity {
            return *self;
        }
        let a = self.to_wire();
        let b = other.to_wire();
        let sum = if less_than(b.as_slice(), a.as_slice()) {
            add_g2(&b, &a)
        } else {
            add_g2(&a, &b)
        };
        G2Point::from_wire(&sum)
    }

    fn twice(&self) -> (p: G2Point) {
        let doubled = double_g2(&self.to_wire());
        G2Point::from_wire(&doubled)
    }

    fn times(&self, k: &Scalar) -> (p: G2Point) {
        if k.is_zero() {
            return G2Point::identity();
        }
        if k.is_one() {
            proof {
                use_type_invariant(&self.x.c0);
                use_type_invariant(&self.x.c1);
                use_type_invariant(&self.y.c0);
                use_type_invariant(&self.y.c1);
            }
            return *self;
        }
        let product = mul_g2(&self.to_wire(), &k.to_wide());
        G2Point::from_wire(&product)
    }

    fn is_on_curve(&self) -> (ok: bool) {
        let wire = self.to_wire();
        proof {
            lemma_g2_wire_of_value(self@);
        }
        check_curve_g2(&wire)
    }

    fn is_in_subgroup(&self) -> (ok: bool) {
        self.infinity || check_subgroup_g2(&self.to_wire())
    }
}

/// Reads the coordinates of an encoded point. All zeros is the point at
/// infinity; any other input must hold four canonical field elements.
pub fn parse_g2(bytes: &[u8]) -> (res: Result<G2Point, ErrorKind>)
    ensures
        match res {
            Ok(p) => parse_g2_spec(bytes@) == Ok::<G2Value, ErrorKind>(p@) && g2_reduced(p@),
            Err(e) => parse_g2_spec(bytes@) == Err::<G2Value, ErrorKind>(e),
        },
{
    if bytes.len() == 0 {
        return Err(ErrorKind::EmptyInput);
    }
    if bytes.len() != G2_ENCODED_LEN {
        return Err(ErrorKind::InvalidLength);
    }
    if is_zero(bytes) {
        return Ok(G2Point::identity());
    }
    let first = slice_subrange(bytes, 0, 2 * FP_ENCODED_LEN);
    let second = slice_subrange(bytes, 2 * FP_ENCODED_LEN, G2_ENCODED_LEN);
    proof {
        assert(first@ =~= bytes@.take(2 * FP_ENCODED_LEN as int));
        assert(second@ =~= bytes@.skip(2 * FP_ENCODED_LEN as int));
    }
    let x = match decode_fp2(first) {
        Ok(x) => x,
        Err(e) => {
            return Err(e);
        },
    };
    let y = match decode_fp2(second) {
        Ok(y) => y,
        Err(e) => {
            return Err(e);
        },
    };
    Ok(G2Point::from_coordinates(x, y))
}

/// Decodes a point: reads its coordinates and rejects a point that is not on
/// the curve. The point at infinity is accepted without that test.
pub fn decode_g2(bytes: &[u8]) -> (res: Result<G2Point, ErrorKind>)
    ensures
        match res {
            Ok(p) => decode_g2_spec(bytes@) == Ok::<G2Value, ErrorKind>(p@) && g2_reduced(p@)
                && g2_on_curve(p@),
            Err(e) => decode_g2_spec(bytes@) == Err::<G2Value, ErrorKind>(e),
        },
{
    let p = match parse_g2(bytes) {
        Ok(p) => p,
        Err(e) => {
            return Err(e);
        },
    };
    if p.is_identity() {
        return Ok(p);
    }
    match validate_point(&p, false) {
        Ok(()) => Ok(p),
        Err(e) => Err(e),
    }
}

/// Encodes a point as its two encoded coordinates, the point at infinity as
/// all zeros.
pub fn encode_g2(p: &G2Point) -> (out: [u8; 256])
    ensures
        out@ == encode_g2_spec(p@),
        g2_encoding_canonical(out@),
{
    proof {
        use_type_invariant(&p.x.c0);
        use_type_invariant(&p.x.c1);
        use_type_invariant(&p.y.c0);
        use_type_invariant(&p.y.c1);
        lemma_g2_encoding_canonical(p@);
    }
    let mut out = [0u8; 256];
    if p.infinity {
        proof {
            assert(out@ =~= zeros(G2_ENCODED_LEN as nat));
        }
    } else {
        let x = encode_fp2(&p.x);
        let y = encode_fp2(&p.y);
        write_at(&mut out, 0, x.as_slice());
        write_at(&mut out, 2 * FP_ENCODED_LEN, y.as_slice());
        proof {
            lemma_be_bytes_len(p.x.c0@, 48);
            lemma_be_bytes_len(p.x.c1@, 48);
            lemma_be_bytes_len(p.y.c0@, 48);
            lemma_be_bytes_len(p.y.c1@, 48);
            assert(out@ =~= encode_fp2_spec(p.x@) + encode_fp2_spec(p.y@));
        }
    }
    out
}

} // verus!
