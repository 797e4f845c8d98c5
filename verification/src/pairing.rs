//! The pairing check: whether the product of the pairings of a list of pairs
//! is the identity of the target group.
use crate::backend::{
    g1_wire_valid, g2_wire_valid, pairing_product_is_identity, pairing_product_is_one, pairs_valid,
    pairs_view,
};
use crate::error::{allowing_memory_error, ErrorKind};
use crate::g1::{
    g1_in_subgroup, g1_on_curve, g1_reduced, g1_to_wire, lemma_g1_wire_of_value, G1Point, G1Value,
};
use crate::g2::{
    g2_in_subgroup, g2_on_curve, g2_reduced, g2_to_wire, lemma_g2_wire_of_value, G2Point, G2Value,
};
use crate::group::validate_point;
use vstd::prelude::*;

verus! {

/// The pairs as mathematical values.
pub open spec fn pairs_values(pairs: Seq<(G1Point, G2Point)>) -> Seq<(G1Value, G2Value)> {
    pairs.map_values(|p: (G1Point, G2Point)| (p.0@, p.1@))
}

/// The pairs in the form that the curve arithmetic takes.
pub open spec fn pairs_to_wire(pairs: Seq<(G1Value, G2Value)>) -> Seq<(Seq<u8>, Seq<u8>)> {
    pairs.map_values(|p: (G1Value, G2Value)| (g1_to_wire(p.0), g2_to_wire(p.1)))
}

/// What validating one pair gives: the point of G1 is looked at first, and
/// both must be on their curve and in their subgroup.
pub open spec fn validate_pair_spec(pair: (G1Value, G2Value)) -> Result<(), ErrorKind> {
    if !g1_on_curve(pair.0) {
        Err(ErrorKind::PointNotOnCurve)
    } else if !g1_in_subgroup(pair.0) {
        Err(ErrorKind::PointNotInSubgroup)
    } else if !g2_on_curve(pair.1) {
        Err(ErrorKind::PointNotOnCurve)
    } else if !g2_in_subgroup(pair.1) {
        Err(ErrorKind::PointNotInSubgroup)
    } else {
        Ok(())
    }
}

/// The error of the first pair that fails validation, if there is one.
pub open spec fn first_invalid_pair(pairs: Seq<(G1Value, G2Value)>) -> Option<ErrorKind>
    decreases pairs.len(),
{
    if pairs.len() == 0 {
        None
    } else {
        match first_invalid_pair(pairs.drop_last()) {
            Some(e) => Some(e),
            None => match validate_pair_spec(pairs.last()) {
                Err(e) => Some(e),
                Ok(_) => None,
            },
        }
    }
}

/// Whether the product of the pairings is the identity of the target group.
/// A pair that holds a point at infinity contributes that identity.
pub open spec fn pairing_product_spec(pairs: Seq<(G1Value, G2Value)>) -> bool {
    pairing_product_is_one(pairs_to_wire(pairs))
}

/// What the pairing check answers when memory suffices: no pairs is an
/// error, and so is the first pair that fails validation.
pub open spec fn pairing_check_spec(pairs: Seq<(G1Value, G2Value)>) -> Result<bool, ErrorKind> {
    if pairs.len() == 0 {
        Err(ErrorKind::EmptyInput)
    } else {
        match first_invalid_pair(pairs) {
            Some(e) => Err(e),
            None => Ok(pairing_product_spec(pairs)),
        }
    }
}

/// An invalid pair among the first `n` is the first invalid pair of the
/// whole list.
pub proof fn lemma_first_invalid_pair_prefix(pairs: Seq<(G1Value, G2Value)>, n: int)
    requires
        0 <= n <= pairs.len(),
    ensures
        first_invalid_pair(pairs.take(n)) is Some ==> first_invalid_pair(pairs)
            == first_invalid_pair(pairs.take(n)),
    decreases pairs.len() - n,
{
    if n < pairs.len() {
        lemma_first_invalid_pair_prefix(pairs, n + 1);
        assert(pairs.take(n + 1).drop_last() =~= pairs.take(n));
    } else {
        assert(pairs.take(n) =~= pairs);
    }
}

/// Where no pair fails validation, every pair passes it.
pub proof fn lemma_every_pair_valid(pairs: Seq<(G1Value, G2Value)>)
    ensures
        first_invalid_pair(pairs) is None <==> (forall|i: int|
            0 <= i < pairs.len() ==> validate_pair_spec(#[trigger] pairs[i]) is Ok),
    decreases pairs.len(),
{
    if pairs.len() > 0 {
        let rest = pairs.drop_last();
        lemma_every_pair_valid(rest);
        if first_invalid_pair(pairs) is None {
            assert forall|i: int| 0 <= i < pairs.len() implies validate_pair_spec(
                #[trigger] pairs[i],
            ) is Ok by {
                if i < rest.len() {
                    assert(rest[i] == pairs[i]);
                }
            }
        } else if first_invalid_pair(rest) is Some {
            let i = choose|i: int| 0 <= i < rest.len() && !(validate_pair_spec(rest[i]) is Ok);
            assert(rest[i] == pairs[i]);
        }
    }
}

/// A pair that passes validation holds two points that may enter a pairing.
pub proof fn lemma_valid_pair_wire(pair: (G1Value, G2Value))
    requires
        g1_reduced(pair.0),
        g2_reduced(pair.1),
        validate_pair_spec(pair) is Ok,
    ensures
        g1_wire_valid(g1_to_wire(pair.0)),
        g2_wire_valid(g2_to_wire(pair.1)),
{
    lemma_g1_wire_of_value(pair.0);
    lemma_g2_wire_of_value(pair.1);
}

/// Validates every pair, in order.
pub fn validate_pairs(pairs: &Vec<(G1Point, G2Point)>) -> (res: Result<(), ErrorKind>)
    ensures
        match res {
            Ok(_) => first_invalid_pair(pairs_values(pairs@)) is None,
            Err(e) => first_invalid_pair(pairs_values(pairs@)) == Some(e),
        },
{
    let ghost values = pairs_values(pairs@);
    let mut i: usize = 0;
    while i < pairs.len()
        invariant
            i <= pairs.len(),
            values == pairs_values(pairs@),
            first_invalid_pair(values.take(i as int)) is None,
        decreases pairs.len() - i,
    {
        let p: G1Point = pairs[i].0;
        let q: G2Point = pairs[i].1;
        proof {
            assert(values.take(i + 1).drop_last() =~= values.take(i as int));
            assert(values.take(i + 1).last() == (p@, q@));
            lemma_first_invalid_pair_prefix(values, i + 1);
        }
        match validate_point(&p, true) {
            Ok(()) => {},
            Err(e) => {
                return Err(e);
            },
        }
        match validate_point(&q, true) {
            Ok(()) => {},
            Err(e) => {
                return Err(e);
            },
        }
        i += 1;
    }
    proof {
        assert(values.take(i as int) =~= values);
    }
    Ok(())
}

/// Evaluates the product of the pairings of pairs that have passed
/// validation, with working memory that the caller has set aside: `wire`
/// must be empty.
pub(crate) fn pairing_product(pairs: &Vec<(G1Point, G2Point)>, wire: Vec<([u8; 96], [u8; 192])>) -> (one:
    bool)
    requires
        wire@.len() == 0,
        first_invalid_pair(pairs_values(pairs@)) is None,
    ensures
        one == pairing_product_spec(pairs_values(pairs@)),
{
    let ghost values = pairs_values(pairs@);
    let mut wire = wire;
    let mut i: usize = 0;
    proof {
        lemma_every_pair_valid(values);
    }
    while i < pairs.len()
        invariant
            i <= pairs.len(),
            values == pairs_values(pairs@),
            forall|j: int| 0 <= j < values.len() ==> validate_pair_spec(#[trigger] values[j]) is Ok,
            wire@.len() == i,
            pairs_valid(wire@),
            pairs_view(wire@) == pairs_to_wire(values.take(i as int)),
        decreases pairs.len() - i,
    {
        let p = pairs[i].0.to_wire();
        let q = pairs[i].1.to_wire();
        let ghost before = wire@;
        proof {
            assert(values[i as int] == (pairs@[i as int].0@, pairs@[i as int].1@));
            lemma_valid_pair_wire(values[i as int]);
        }
        wire.push((p, q));
        proof {
            assert forall|j: int| 0 <= j < wire@.len() implies g1_wire_valid(
                #[trigger] wire@[j].0@,
            ) && g2_wire_valid(wire@[j].1@) by {
                if j < i {
                    assert(wire@[j] == before[j]);
                }
            }
            let now = pairs_view(wire@);
            let goal = pairs_to_wire(values.take(i + 1));
            assert forall|j: int| 0 <= j < now.len() implies now[j] == goal[j] by {
                if j < i {
                    assert(now[j] == pairs_view(before)[j]);
                    assert(goal[j] == pairs_to_wire(values.take(i as int))[j]);
                }
            }
            assert(now =~= goal);
        }
        i += 1;
    }
    proof {
        assert(values.take(i as int) =~= values);
    }
    pairing_product_is_identity(&wire)
}

/// The pairing check. Every point of every pair is validated, subgroup
/// included, before anything is evaluated. `MemoryError` is the answer only
/// where every pair is valid and working memory cannot be had.
pub fn pairing_check(pairs: &Vec<(G1Point, G2Point)>) -> (res: Result<bool, ErrorKind>)
    ensures
        allowing_memory_error(res, pairing_check_spec(pairs_values(pairs@))),
{
    if pairs.len() == 0 {
        return Err(ErrorKind::EmptyInput);
    }
    match validate_pairs(pairs) {
        Ok(()) => {},
        Err(e) => {
            return Err(e);
        },
    }
    let mut wire: Vec<([u8; 96], [u8; 192])> = Vec::new();
    if wire.try_reserve(pairs.len()).is_err() {
        return Err(ErrorKind::MemoryError);
    }
    Ok(pairing_product(pairs, wire))
}

} // verus!
