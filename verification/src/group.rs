//! What the two groups of the curve have in common.
use crate::error::ErrorKind;
use crate::scalar::Scalar;
use vstd::prelude::*;

verus! {

/// A point of one of the two groups. The functions without `self` say what
/// the operations compute on the mathematical values of points.
pub trait CurvePoint: Sized + Copy {
    /// The point as a mathematical value.
    type Value;

    /// The mathematical value of this point.
    spec fn value(&self) -> Self::Value;

    /// The point at infinity.
    spec fn identity_value() -> Self::Value;

    /// The sum of two points.
    spec fn sum(a: Self::Value, b: Self::Value) -> Self::Value;

    /// A point added to itself.
    spec fn doubled(a: Self::Value) -> Self::Value;

    /// A point multiplied by a scalar below `2^256`.
    spec fn product(a: Self::Value, k: nat) -> Self::Value;

    /// The coordinates of the point are below the modulus, as those of
    /// every point that this library holds are.
    spec fn reduced(a: Self::Value) -> bool;

    /// The point is the point at infinity or solves the curve equation.
    spec fn on_curve(a: Self::Value) -> bool;

    /// The point lies in the subgroup of prime order.
    spec fn in_subgroup(a: Self::Value) -> bool;

    /// Width of an encoded point.
    spec fn encoded_len() -> nat;

    /// What reading the coordinates of an encoded point gives, before any
    /// validation.
    spec fn parse_spec(bytes: Seq<u8>) -> Result<Self::Value, ErrorKind>;

    /// The encoding of a point.
    spec fn encode_spec(p: Self::Value) -> Seq<u8>;

/// Width of an encoded point.
    fn width() -> (n: usize)
        ensures
            n == Self::encoded_len(),
            0 < n <= 256,
    ;

/// Reads the coordinates of an encoded point, without any validation.
    fn parse(bytes: &[u8]) -> (res: Result<Self, ErrorKind>)
        ensures
            match res {
                Ok(p) => Self::parse_spec(bytes@) == Ok::<Self::Value, ErrorKind>(p.value())
                    && Self::reduced(p.value()),
                Err(e) => Self::parse_spec(bytes@) == Err::<Self::Value, ErrorKind>(e),
            },
    ;

/// The point at infinity.
    fn identity() -> (p: Self)
        ensures
            p.value() == Self::identity_value(),
            Self::reduced(p.value()),
    ;

/// Whether this is the point at infinity.
    fn is_identity(&self) -> (identity: bool)
        ensures
            identity == (self.value() == Self::identity_value()),
    ;

/// A copy of this point.
    fn duplicate(&self) -> (p: Self)
        ensures
            p.value() == self.value(),
            Self::reduced(p.value()),
    ;

/// The sum of this point and another.
    fn plus(&self, other: &Self) -> (p: Self)
        ensures
            p.value() == Self::sum(self.value(), other.value()),
            Self::reduced(p.value()),
    ;

/// This point added to itself.
    fn twice(&self) -> (p: Self)
        ensures
            p.value() == Self::doubled(self.value()),
            Self::reduced(p.value()),
    ;

/// This point multiplied by a scalar.
    fn times(&self, k: &Scalar) -> (p: Self)
        ensures
            p.value() == Self::product(self.value(), k@),
            Self::reduced(p.value()),
    ;

/// Whether this point is the point at infinity or solves the curve
/// equation.
    fn is_on_curve(&self) -> (ok: bool)
        ensures
            ok == Self::on_curve(self.value()),
    ;

/// Whether this point lies in the subgroup of prime order.
    fn is_in_subgroup(&self) -> (ok: bool)
        ensures
            ok == Self::in_subgroup(self.value()),
    ;
}

/// What validation answers for a point: the curve equation is tested first,
/// the subgroup only where the operation asks for it.
pub open spec fn validate_point_spec<G: CurvePoint>(p: G::Value, require_subgroup: bool) -> Result<
    (),
    ErrorKind,
> {
    if !G::on_curve(p) {
        Err(ErrorKind::PointNotOnCurve)
    } else if require_subgroup && !G::in_subgroup(p) {
        Err(ErrorKind::PointNotInSubgroup)
    } else {
        Ok(())
    }
}

/// Validates a decoded point. Addition asks for a point on the curve; scalar
/// multiplication, multi-scalar multiplication and the pairing ask for the
/// subgroup as well.
pub fn validate_point<G: CurvePoint>(p: &G, require_subgroup: bool) -> (res: Result<(), ErrorKind>)
    ensures
        res == validate_point_spec::<G>(p.value(), require_subgroup),
{
    if !p.is_on_curve() {
        Err(ErrorKind::PointNotOnCurve)
    } else if require_subgroup && !p.is_in_subgroup() {
        Err(ErrorKind::PointNotInSubgroup)
    } else {
        Ok(())
    }
}

/// What decoding a point for an operation gives: its coordinates, if they
/// are canonical and the point passes the validation that the operation asks
/// for.
pub open spec fn decode_point_spec<G: CurvePoint>(bytes: Seq<u8>, require_subgroup: bool) -> Result<
    G::Value,
    ErrorKind,
> {
    match G::parse_spec(bytes) {
        Err(e) => Err(e),
        Ok(p) => match validate_point_spec::<G>(p, require_subgroup) {
            Err(e) => Err(e),
            Ok(_) => Ok(p),
        },
    }
}

/// Decodes a point for an operation: canonical coordinates first, then the
/// curve equation, then the subgroup where the operation asks for it.
pub fn decode_point<G: CurvePoint>(bytes: &[u8], require_subgroup: bool) -> (res: Result<
    G,
    ErrorKind,
>)
    ensures
        match res {
            Ok(p) => decode_point_spec::<G>(bytes@, require_subgroup) == Ok::<G::Value, ErrorKind>(
                p.value(),
            ) && G::reduced(p.value()),
            Err(e) => decode_point_spec::<G>(bytes@, require_subgroup) == Err::<G::Value, ErrorKind>(
                e,
            ),
        },
{
    let p = match G::parse(bytes) {
        Ok(p) => p,
        Err(e) => {
            return Err(e);
        },
    };
    match validate_point(&p, require_subgroup) {
        Ok(()) => Ok(p),
        Err(e) => Err(e),
    }
}

} // verus!
