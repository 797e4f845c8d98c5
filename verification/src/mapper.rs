//! The maps from field elements to points of the two groups.
use crate::backend::{g1_mapped, g2_mapped, map_g1, map_g2};
use crate::field::{encode_fp, encode_fp2, encode_fp2_spec, encode_fp_spec, Fp, Fp2, Fp2Value};
use crate::g1::{
    g1_from_wire, g1_in_subgroup, g1_on_curve, g1_reduced, lemma_g1_value_of_wire, G1Point,
    G1Value,
};
use crate::g2::{
    g2_from_wire, g2_in_subgroup, g2_on_curve, g2_reduced, lemma_g2_value_of_wire, G2Point,
    G2Value,
};
use vstd::prelude::*;

verus! {

/// The point of G1 that a field element is mapped to.
pub open spec fn map_fp_to_g1_spec(u: nat) -> G1Value {
    g1_from_wire(g1_mapped(encode_fp_spec(u)))
}

/// The point of G2 that an extension-field element is mapped to.
pub open spec fn map_fp2_to_g2_spec(u: Fp2Value) -> G2Value {
    g2_from_wire(g2_mapped(encode_fp2_spec(u)))
}

/// Maps a field element to a point of G1. The map is total and always gives
/// the same point for the same element; the point is on the curve and in the
/// subgroup, so it needs no validation.
pub fn map_fp_to_g1(u: &Fp) -> (p: G1Point)
    ensures
        p@ == map_fp_to_g1_spec(u@),
        g1_reduced(p@),
        g1_on_curve(p@),
        g1_in_subgroup(p@),
{
    let encoded = encode_fp(u);
    let wire = map_g1(&encoded);
    proof {
        lemma_g1_value_of_wire(wire@);
    }
    G1Point::from_wire(&wire)
}

/// Maps an extension-field element to a point of G2. The map is total and
/// always gives the same point for the same element; the point is on the
/// curve and in the subgroup, so it needs no validation.
pub fn map_fp2_to_g2(u: &Fp2) -> (p: G2Point)
    ensures
        p@ == map_fp2_to_g2_spec(u@),
        g2_reduced(p@),
        g2_on_curve(p@),
        g2_in_subgroup(p@),
{
    let encoded = encode_fp2(u);
    let wire = map_g2(&encoded);
    proof {
        lemma_g2_value_of_wire(wire@);
    }
    G2Point::from_wire(&wire)
}

} // verus!
