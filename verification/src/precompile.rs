//! The operations on bytes: each decodes its input, validates it as the
//! operation asks, computes, and encodes the result. An operation gives a
//! whole output or one error, never a part of an output.
use crate::bytes::{be_nat, zeros};
use crate::error::{allowing_memory_error, ErrorKind};
use crate::field::{decode_fp, decode_fp2, decode_fp2_spec, decode_fp_spec};
use crate::g1::{
    decode_g1_checked_spec, encode_g1, encode_g1_spec, g1_encoding_canonical, G1Point, G1Value,
    G1_ENCODED_LEN,
};
use crate::g2::{
    decode_g2_checked_spec, encode_g2, encode_g2_spec, g2_encoding_canonical, G2Point, G2Value,
};
use crate::laws::{lemma_decode_encode_g1, lemma_decode_encode_g2};
use crate::group::{decode_point, decode_point_spec, CurvePoint};
use crate::mapper::{map_fp2_to_g2, map_fp2_to_g2_spec, map_fp_to_g1, map_fp_to_g1_spec};
use crate::msm::{accumulate, accumulate_spec, terms_view, Strategy};
use crate::pairing::{
    first_invalid_pair, lemma_every_pair_valid, pairing_product, pairing_product_spec,
    pairs_values, validate_pair_spec,
};
use crate::records::{
    lemma_next_record, lemma_records_all, lemma_records_prefix_error, lemma_records_step,
    length_error, records_spec,
};
use crate::scalar::{decode_scalar, Scalar, SCALAR_LEN};
use vstd::prelude::*;
use vstd::slice::slice_subrange;

verus! {

/// Width of one pair of the pairing check: a G1 point, then a G2 point.
pub const PAIR_LEN: usize = 384;

/// The encoding of a result, where there is one.
pub open spec fn encoded<G: CurvePoint>(r: Result<G::Value, ErrorKind>) -> Result<
    Seq<u8>,
    ErrorKind,
> {
    match r {
        Ok(p) => Ok(G::encode_spec(p)),
        Err(e) => Err(e),
    }
}

/// The sum of the two points of an input, each of which must be on the
/// curve; the subgroup is not asked for.
pub open spec fn add_spec<G: CurvePoint>(input: Seq<u8>) -> Result<G::Value, ErrorKind> {
    let n = G::encoded_len();
    if input.len() == 0 {
        Err(ErrorKind::EmptyInput)
    } else if input.len() != 2 * n {
        Err(ErrorKind::InvalidLength)
    } else {
        match decode_point_spec::<G>(input.take(n as int), false) {
            Err(e) => Err(e),
            Ok(p) => match decode_point_spec::<G>(input.skip(n as int), false) {
                Err(e) => Err(e),
                Ok(q) => Ok(G::sum(p, q)),
            },
        }
    }
}

/// Width of a point followed by a scalar.
pub open spec fn term_len<G: CurvePoint>() -> nat {
    G::encoded_len() + SCALAR_LEN as nat
}

/// The point and the scalar of one term; the point must be on the curve and
/// in the subgroup.
pub open spec fn term_spec<G: CurvePoint>(record: Seq<u8>) -> Result<(G::Value, nat), ErrorKind> {
    let n = G::encoded_len();
    match decode_point_spec::<G>(record.take(n as int), true) {
        Err(e) => Err(e),
        Ok(p) => Ok((p, be_nat(record.skip(n as int)))),
    }
}

/// The product of the point and the scalar of an input.
pub open spec fn mul_spec<G: CurvePoint>(input: Seq<u8>) -> Result<G::Value, ErrorKind> {
    if input.len() == 0 {
        Err(ErrorKind::EmptyInput)
    } else if input.len() != term_len::<G>() {
        Err(ErrorKind::InvalidLength)
    } else {
        match term_spec::<G>(input) {
            Err(e) => Err(e),
            Ok(t) => Ok(G::product(t.0, t.1)),
        }
    }
}

/// The terms of an input, or the error of the first term that fails.
pub open spec fn terms_spec<G: CurvePoint>(input: Seq<u8>) -> Result<
    Seq<(G::Value, nat)>,
    ErrorKind,
> {
    records_spec(input, term_len::<G>(), |record: Seq<u8>| term_spec::<G>(record))
}

/// The multi-scalar multiplication of an input by a strategy, when memory
/// suffices.
pub open spec fn multiexp_input_spec<G: CurvePoint>(input: Seq<u8>, strategy: Strategy) -> Result<
    G::Value,
    ErrorKind,
> {
    match length_error(input.len(), term_len::<G>()) {
        Some(e) => Err(e),
        None => match terms_spec::<G>(input) {
            Err(e) => Err(e),
            Ok(terms) => Ok(accumulate_spec::<G>(terms, strategy)),
        },
    }
}

/// The two points of one pair; each must be on its curve and in its
/// subgroup, and the point of G1 is looked at first.
pub open spec fn pair_spec(record: Seq<u8>) -> Result<(G1Value, G2Value), ErrorKind> {
    match decode_g1_checked_spec(record.take(G1_ENCODED_LEN as int), true) {
        Err(e) => Err(e),
        Ok(p) => match decode_g2_checked_spec(record.skip(G1_ENCODED_LEN as int), true) {
            Err(e) => Err(e),
            Ok(q) => Ok((p, q)),
        },
    }
}

/// The pairs of an input, or the error of the first pair that fails.
pub open spec fn pairs_spec(input: Seq<u8>) -> Result<Seq<(G1Value, G2Value)>, ErrorKind> {
    records_spec(input, PAIR_LEN as nat, |record: Seq<u8>| pair_spec(record))
}

/// The output of the pairing check: thirty-one zero bytes, then one for
/// true and zero for false.
pub open spec fn encode_bool_spec(b: bool) -> Seq<u8> {
    zeros(31).push(
        if b {
            1u8
        } else {
            0u8
        },
    )
}

/// The pairing check of an input, when memory suffices.
pub open spec fn pairing_spec(input: Seq<u8>) -> Result<Seq<u8>, ErrorKind> {
    match length_error(input.len(), PAIR_LEN as nat) {
        Some(e) => Err(e),
        None => match pairs_spec(input) {
            Err(e) => Err(e),
            Ok(pairs) => Ok(encode_bool_spec(pairing_product_spec(pairs))),
        },
    }
}

/// The encoded point of G1 that the field element of an input is mapped to.
pub open spec fn map_fp_to_g1_bytes_spec(input: Seq<u8>) -> Result<Seq<u8>, ErrorKind> {
    match decode_fp_spec(input) {
        Err(e) => Err(e),
        Ok(u) => Ok(encode_g1_spec(map_fp_to_g1_spec(u))),
    }
}

/// The encoded point of G2 that the extension-field element of an input is
/// mapped to.
pub open spec fn map_fp2_to_g2_bytes_spec(input: Seq<u8>) -> Result<Seq<u8>, ErrorKind> {
    match decode_fp2_spec(input) {
        Err(e) => Err(e),
        Ok(u) => Ok(encode_g2_spec(map_fp2_to_g2_spec(u))),
    }
}

/// Adds the two points of an input.
pub fn add_points<G: CurvePoint>(input: &[u8]) -> (res: Result<G, ErrorKind>)
    ensures
        match res {
            Ok(p) => add_spec::<G>(input@) == Ok::<G::Value, ErrorKind>(p.value()) && G::reduced(
                p.value(),
            ),
            Err(e) => add_spec::<G>(input@) == Err::<G::Value, ErrorKind>(e),
        },
{
    let n = G::width();
    if input.len() == 0 {
        return Err(ErrorKind::EmptyInput);
    }
    if input.len() != 2 * n {
        return Err(ErrorKind::InvalidLength);
    }
    let first = slice_subrange(input, 0, n);
    let second = slice_subrange(input, n, 2 * n);
    proof {
        assert(first@ =~= input@.take(n as int));
        assert(second@ =~= input@.skip(n as int));
    }
    let p = match decode_point::<G>(first, false) {
        Ok(p) => p,
        Err(e) => {
            return Err(e);
        },
    };
    let q = match decode_point::<G>(second, false) {
        Ok(q) => q,
        Err(e) => {
            return Err(e);
        },
    };
    Ok(p.plus(&q))
}

/// Decodes one term: a point, which is validated with the subgroup test, and
/// a scalar.
pub(crate) fn decode_term<G: CurvePoint>(record: &[u8]) -> (res: Result<(G, Scalar), ErrorKind>)
    requires
        record.len() == term_len::<G>(),
    ensures
        match res {
            Ok(t) => term_spec::<G>(record@) == Ok::<(G::Value, nat), ErrorKind>(
                (t.0.value(), t.1@),
            ),
            Err(e) => term_spec::<G>(record@) == Err::<(G::Value, nat), ErrorKind>(e),
        },
{
    let n = G::width();
    let point_bytes = slice_subrange(record, 0, n);
    let scalar_bytes = slice_subrange(record, n, n + SCALAR_LEN);
    proof {
        assert(point_bytes@ =~= record@.take(n as int));
        assert(scalar_bytes@ =~= record@.skip(n as int));
    }
    let point = match decode_point::<G>(point_bytes, true) {
        Ok(p) => p,
        Err(e) => {
            return Err(e);
        },
    };
    match decode_scalar(scalar_bytes) {
        Ok(scalar) => Ok((point, scalar)),
        Err(e) => Err(e),
    }
}

/// Multiplies the point of an input by its scalar.
pub fn mul_point<G: CurvePoint>(input: &[u8]) -> (res: Result<G, ErrorKind>)
    ensures
        match res {
            Ok(p) => mul_spec::<G>(input@) == Ok::<G::Value, ErrorKind>(p.value()) && G::reduced(
                p.value(),
            ),
            Err(e) => mul_spec::<G>(input@) == Err::<G::Value, ErrorKind>(e),
        },
{
    let n = G::width();
    if input.len() == 0 {
        return Err(ErrorKind::EmptyInput);
    }
    if input.len() != n + SCALAR_LEN {
        return Err(ErrorKind::InvalidLength);
    }
    match decode_term::<G>(input) {
        Ok(term) => Ok(term.0.times(&term.1)),
        Err(e) => Err(e),
    }
}

/// Decodes the terms of an input of sound length into working memory that
/// the caller has set aside: `terms` must be empty.
pub(crate) fn decode_terms<G: CurvePoint>(input: &[u8], terms: Vec<(G, Scalar)>) -> (res: Result<
    Vec<(G, Scalar)>,
    ErrorKind,
>)
    requires
        terms@.len() == 0,
        length_error(input@.len(), term_len::<G>()) is None,
    ensures
        match res {
            Ok(terms) => terms_spec::<G>(input@) == Ok::<Seq<(G::Value, nat)>, ErrorKind>(
                terms_view::<G>(terms@),
            ),
            Err(e) => terms_spec::<G>(input@) == Err::<Seq<(G::Value, nat)>, ErrorKind>(e),
        },
{
    let width = G::width() + SCALAR_LEN;
    let ghost decode = |record: Seq<u8>| term_spec::<G>(record);
    let mut terms = terms;
    let mut offset: usize = 0;
    proof {
        assert(input@.take(0) =~= Seq::<u8>::empty());
        assert(terms_view::<G>(terms@) =~= Seq::<(G::Value, nat)>::empty());
    }
    while offset < input.len()
        invariant
            offset <= input.len(),
            width == term_len::<G>(),
            0 < width,
            (input.len() - offset) % (width as int) == 0,
            decode == (|record: Seq<u8>| term_spec::<G>(record)),
            records_spec(input@.take(offset as int), width as nat, decode) == Ok::<
                Seq<(G::Value, nat)>,
                ErrorKind,
            >(terms_view::<G>(terms@)),
        decreases input.len() - offset,
    {
        proof {
            lemma_next_record(input.len() as int, offset as int, width as int);
            lemma_records_step(input@, width as nat, decode, offset as int);
        }
        let record = slice_subrange(input, offset, offset + width);
        let ghost before = terms@;
        match decode_term::<G>(record) {
            Ok(term) => {
                terms.push(term);
                proof {
                    assert(terms_view::<G>(terms@) =~= terms_view::<G>(before).push(
                        (term.0.value(), term.1@),
                    ));
                }
            },
            Err(e) => {
                proof {
                    lemma_records_prefix_error(
                        input@,
                        width as nat,
                        decode,
                        offset + width as int,
                    );
                }
                return Err(e);
            },
        }
        offset += width;
    }
    proof {
        assert(input@.take(offset as int) =~= input@);
    }
    Ok(terms)
}

/// Decodes and validates the terms of an input of sound length without
/// keeping them: the error of the first term that fails, if one does.
pub(crate) fn check_terms<G: CurvePoint>(input: &[u8]) -> (res: Result<(), ErrorKind>)
    requires
        length_error(input@.len(), term_len::<G>()) is None,
    ensures
        match res {
            Ok(_) => terms_spec::<G>(input@) is Ok,
            Err(e) => terms_spec::<G>(input@) == Err::<Seq<(G::Value, nat)>, ErrorKind>(e),
        },
{
    let width = G::width() + SCALAR_LEN;
    let ghost decode = |record: Seq<u8>| term_spec::<G>(record);
    let mut offset: usize = 0;
    proof {
        assert(input@.take(0) =~= Seq::<u8>::empty());
    }
    while offset < input.len()
        invariant
            offset <= input.len(),
            width == term_len::<G>(),
            0 < width,
            (input.len() - offset) % (width as int) == 0,
            decode == (|record: Seq<u8>| term_spec::<G>(record)),
            records_spec(input@.take(offset as int), width as nat, decode) is Ok,
        decreases input.len() - offset,
    {
        proof {
            lemma_next_record(input.len() as int, offset as int, width as int);
            lemma_records_step(input@, width as nat, decode, offset as int);
        }
        let record = slice_subrange(input, offset, offset + width);
        match decode_term::<G>(record) {
            Ok(_) => {},
            Err(e) => {
                proof {
                    lemma_records_prefix_error(
                        input@,
                        width as nat,
                        decode,
                        offset + width as int,
                    );
                }
                return Err(e);
            },
        }
        offset += width;
    }
    proof {
        assert(input@.take(offset as int) =~= input@);
    }
    Ok(())
}

/// Multi-scalar multiplication of the terms of an input. The length is
/// looked at first; then every term is decoded and validated, in order,
/// before anything is summed. `MemoryError` is the answer only where every
/// term is valid and working memory cannot be had.
pub fn multiexp_points<G: CurvePoint>(input: &[u8], strategy: Strategy) -> (res: Result<
    G,
    ErrorKind,
>)
    ensures
        match res {
            Ok(p) => multiexp_input_spec::<G>(input@, strategy) == Ok::<G::Value, ErrorKind>(
                p.value(),
            ) && G::reduced(p.value()),
            Err(e) => multiexp_input_spec::<G>(input@, strategy) == Err::<G::Value, ErrorKind>(e)
                || (e == ErrorKind::MemoryError && multiexp_input_spec::<G>(input@, strategy)
                is Ok),
        },
{
    let width = G::width() + SCALAR_LEN;
    if input.len() == 0 {
        return Err(ErrorKind::EmptyInput);
    }
    if input.len() % width != 0 {
        return Err(ErrorKind::InvalidLength);
    }
    let mut terms: Vec<(G, Scalar)> = Vec::new();
    if terms.try_reserve(input.len() / width).is_err() {
        return match check_terms::<G>(input) {
            Ok(()) => Err(ErrorKind::MemoryError),
            Err(e) => Err(e),
        };
    }
    match decode_terms::<G>(input, terms) {
        Ok(terms) => Ok(accumulate(&terms, strategy)),
        Err(e) => Err(e),
    }
}

/// Decodes one pair. The point of G1 is decoded and validated first, then
/// the point of G2; both are validated with the subgroup test.
pub(crate) fn decode_pair(record: &[u8]) -> (res: Result<(G1Point, G2Point), ErrorKind>)
    requires
        record.len() == PAIR_LEN,
    ensures
        match res {
            Ok(pair) => pair_spec(record@) == Ok::<(G1Value, G2Value), ErrorKind>(
                (pair.0@, pair.1@),
            ),
            Err(e) => pair_spec(record@) == Err::<(G1Value, G2Value), ErrorKind>(e),
        },
{
    let first = slice_subrange(record, 0, G1_ENCODED_LEN);
    let second = slice_subrange(record, G1_ENCODED_LEN, PAIR_LEN);
    proof {
        assert(first@ =~= record@.take(G1_ENCODED_LEN as int));
        assert(second@ =~= record@.skip(G1_ENCODED_LEN as int));
    }
    let p = match decode_point::<G1Point>(first, true) {
        Ok(p) => p,
        Err(e) => {
            return Err(e);
        },
    };
    match decode_point::<G2Point>(second, true) {
        Ok(q) => Ok((p, q)),
        Err(e) => Err(e),
    }
}

/// Decodes the pairs of an input of sound length into working memory that
/// the caller has set aside: `pairs` must be empty.
pub(crate) fn decode_pairs(input: &[u8], pairs: Vec<(G1Point, G2Point)>) -> (res: Result<
    Vec<(G1Point, G2Point)>,
    ErrorKind,
>)
    requires
        pairs@.len() == 0,
        length_error(input@.len(), PAIR_LEN as nat) is None,
    ensures
        match res {
            Ok(pairs) => pairs_spec(input@) == Ok::<Seq<(G1Value, G2Value)>, ErrorKind>(
                pairs_values(pairs@),
            ),
            Err(e) => pairs_spec(input@) == Err::<Seq<(G1Value, G2Value)>, ErrorKind>(e),
        },
{
    let ghost decode = |record: Seq<u8>| pair_spec(record);
    let mut pairs = pairs;
    let mut offset: usize = 0;
    proof {
        assert(input@.take(0) =~= Seq::<u8>::empty());
        assert(pairs_values(pairs@) =~= Seq::<(G1Value, G2Value)>::empty());
    }
    while offset < input.len()
        invariant
            offset <= input.len(),
            (input.len() - offset) % (PAIR_LEN as int) == 0,
            decode == (|record: Seq<u8>| pair_spec(record)),
            records_spec(input@.take(offset as int), PAIR_LEN as nat, decode) == Ok::<
                Seq<(G1Value, G2Value)>,
                ErrorKind,
            >(pairs_values(pairs@)),
        decreases input.len() - offset,
    {
        proof {
            lemma_next_record(input.len() as int, offset as int, PAIR_LEN as int);
            lemma_records_step(input@, PAIR_LEN as nat, decode, offset as int);
        }
        let record = slice_subrange(input, offset, offset + PAIR_LEN);
        let ghost before = pairs@;
        match decode_pair(record) {
            Ok(pair) => {
                pairs.push(pair);
                proof {
                    assert(pairs_values(pairs@) =~= pairs_values(before).push((pair.0@, pair.1@)));
                }
            },
            Err(e) => {
                proof {
                    lemma_records_prefix_error(
                        input@,
                        PAIR_LEN as nat,
                        decode,
                        offset + PAIR_LEN as int,
                    );
                }
                return Err(e);
            },
        }
        offset += PAIR_LEN;
    }
    proof {
        assert(input@.take(offset as int) =~= input@);
    }
    Ok(pairs)
}

/// Encodes the answer of the pairing check.
pub fn encode_bool(b: bool) -> (out: [u8; 32])
    ensures
        out@ == encode_bool_spec(b),
{
    let mut out = [0u8; 32];
    if b {
        out[31] = 1;
    }
    proof {
        assert(out@ =~= encode_bool_spec(b));
    }
    out
}

/// Addition in G1: 256 bytes in, two points; 128 bytes out.
pub fn g1_add(input: &[u8]) -> (res: Result<[u8; 128], ErrorKind>)
    ensures
        match res {
            Ok(out) => encoded::<G1Point>(add_spec::<G1Point>(input@)) == Ok::<
                Seq<u8>,
                ErrorKind,
            >(out@),
            Err(e) => encoded::<G1Point>(add_spec::<G1Point>(input@)) == Err::<
                Seq<u8>,
                ErrorKind,
            >(e),
        },
        match res {
            Ok(out) => g1_encoding_canonical(out@),
            Err(_) => true,
        },
{
    match add_points::<G1Point>(input) {
        Ok(p) => Ok(encode_g1(&p)),
        Err(e) => Err(e),
    }
}

/// Scalar multiplication in G1: 160 bytes in, a point and a scalar; 128
/// bytes out.
pub fn g1_mul(input: &[u8]) -> (res: Result<[u8; 128], ErrorKind>)
    ensures
        match res {
            Ok(out) => encoded::<G1Point>(mul_spec::<G1Point>(input@)) == Ok::<
                Seq<u8>,
                ErrorKind,
            >(out@),
            Err(e) => encoded::<G1Point>(mul_spec::<G1Point>(input@)) == Err::<
                Seq<u8>,
                ErrorKind,
            >(e),
        },
        match res {
            Ok(out) => g1_encoding_canonical(out@),
            Err(_) => true,
        },
{
    match mul_point::<G1Point>(input) {
        Ok(p) => Ok(encode_g1(&p)),
        Err(e) => Err(e),
    }
}

/// Multi-scalar multiplication in G1 by a strategy: a positive number of
/// terms of 160 bytes in; 128 bytes out.
pub fn g1_multiexp_with(input: &[u8], strategy: Strategy) -> (res: Result<[u8; 128], ErrorKind>)
    ensures
        allowing_memory_error(
            match res {
                Ok(out) => Ok(out@),
                Err(e) => Err(e),
            },
            encoded::<G1Point>(multiexp_input_spec::<G1Point>(input@, strategy)),
        ),
        match res {
            Ok(out) => g1_encoding_canonical(out@),
            Err(_) => true,
        },
{
    match multiexp_points::<G1Point>(input, strategy) {
        Ok(p) => Ok(encode_g1(&p)),
        Err(e) => Err(e),
    }
}

/// Addition in G2: 512 bytes in, two points; 256 bytes out.
pub fn g2_add(input: &[u8]) -> (res: Result<[u8; 256], ErrorKind>)
    ensures
        match res {
            Ok(out) => encoded::<G2Point>(add_spec::<G2Point>(input@)) == Ok::<
                Seq<u8>,
                ErrorKind,
            >(out@),
            Err(e) => encoded::<G2Point>(add_spec::<G2Point>(input@)) == Err::<
                Seq<u8>,
                ErrorKind,
            >(e),
        },
        match res {
            Ok(out) => g2_encoding_canonical(out@),
            Err(_) => true,
        },
{
    match add_points::<G2Point>(input) {
        Ok(p) => Ok(encode_g2(&p)),
        Err(e) => Err(e),
    }
}

/// Scalar multiplication in G2: 288 bytes in, a point and a scalar; 256
/// bytes out.
pub fn g2_mul(input: &[u8]) -> (res: Result<[u8; 256], ErrorKind>)
    ensures
        match res {
            Ok(out) => encoded::<G2Point>(mul_spec::<G2Point>(input@)) == Ok::<
                Seq<u8>,
                ErrorKind,
            >(out@),
            Err(e) => encoded::<G2Point>(mul_spec::<G2Point>(input@)) == Err::<
                Seq<u8>,
                ErrorKind,
            >(e),
        },
        match res {
            Ok(out) => g2_encoding_canonical(out@),
            Err(_) => true,
        },
{
    match mul_point::<G2Point>(input) {
        Ok(p) => Ok(encode_g2(&p)),
        Err(e) => Err(e),
    }
}

/// Multi-scalar multiplication in G2 by a strategy: a positive number of
/// terms of 288 bytes in; 256 bytes out.
pub fn g2_multiexp_with(input: &[u8], strategy: Strategy) -> (res: Result<[u8; 256], ErrorKind>)
    ensures
        allowing_memory_error(
            match res {
                Ok(out) => Ok(out@),
                Err(e) => Err(e),
            },
            encoded::<G2Point>(multiexp_input_spec::<G2Point>(input@, strategy)),
        ),
        match res {
            Ok(out) => g2_encoding_canonical(out@),
            Err(_) => true,
        },
{
    match multiexp_points::<G2Point>(input, strategy) {
        Ok(p) => Ok(encode_g2(&p)),
        Err(e) => Err(e),
    }
}

/// Decodes and validates the pairs of an input of sound length without
/// keeping them: the error of the first pair that fails, if one does.
pub(crate) fn check_pairs(input: &[u8]) -> (res: Result<(), ErrorKind>)
    requires
        length_error(input@.len(), PAIR_LEN as nat) is None,
    ensures
        match res {
            Ok(_) => pairs_spec(input@) is Ok,
            Err(e) => pairs_spec(input@) == Err::<Seq<(G1Value, G2Value)>, ErrorKind>(e),
        },
{
    let ghost decode = |record: Seq<u8>| pair_spec(record);
    let mut offset: usize = 0;
    proof {
        assert(input@.take(0) =~= Seq::<u8>::empty());
    }
    while offset < input.len()
        invariant
            offset <= input.len(),
            (input.len() - offset) % (PAIR_LEN as int) == 0,
            decode == (|record: Seq<u8>| pair_spec(record)),
            records_spec(input@.take(offset as int), PAIR_LEN as nat, decode) is Ok,
        decreases input.len() - offset,
    {
        proof {
            lemma_next_record(input.len() as int, offset as int, PAIR_LEN as int);
            lemma_records_step(input@, PAIR_LEN as nat, decode, offset as int);
        }
        let record = slice_subrange(input, offset, offset + PAIR_LEN);
        match decode_pair(record) {
            Ok(_) => {},
            Err(e) => {
                proof {
                    lemma_records_prefix_error(
                        input@,
                        PAIR_LEN as nat,
                        decode,
                        offset + PAIR_LEN as int,
                    );
                }
                return Err(e);
            },
        }
        offset += PAIR_LEN;
    }
    proof {
        assert(input@.take(offset as int) =~= input@);
    }
    Ok(())
}

/// The pairs that an input gives have all passed validation.
pub proof fn lemma_decoded_pairs_valid(input: Seq<u8>)
    ensures
        match pairs_spec(input) {
            Ok(pairs) => first_invalid_pair(pairs) is None,
            Err(_) => true,
        },
{
    let decode = |record: Seq<u8>| pair_spec(record);
    let holds = |pair: (G1Value, G2Value)| validate_pair_spec(pair) is Ok;
    lemma_records_all(input, PAIR_LEN as nat, decode, holds);
    match pairs_spec(input) {
        Ok(pairs) => {
            lemma_every_pair_valid(pairs);
        },
        Err(_) => {},
    }
}

/// The pairing check: a positive number of pairs of 384 bytes in; 32 bytes
/// out, which hold one where the product of the pairings is the identity and
/// zero where it is not. `MemoryError` is the answer only where every pair is
/// valid and working memory cannot be had.
pub fn pairing(input: &[u8]) -> (res: Result<[u8; 32], ErrorKind>)
    ensures
        allowing_memory_error(
            match res {
                Ok(out) => Ok(out@),
                Err(e) => Err(e),
            },
            pairing_spec(input@),
        ),
{
    if input.len() == 0 {
        return Err(ErrorKind::EmptyInput);
    }
    if input.len() % PAIR_LEN != 0 {
        return Err(ErrorKind::InvalidLength);
    }
    let count = input.len() / PAIR_LEN;
    let mut pairs: Vec<(G1Point, G2Point)> = Vec::new();
    let mut wire: Vec<([u8; 96], [u8; 192])> = Vec::new();
    if pairs.try_reserve(count).is_err() || wire.try_reserve(count).is_err() {
        return match check_pairs(input) {
            Ok(()) => Err(ErrorKind::MemoryError),
            Err(e) => Err(e),
        };
    }
    proof {
        lemma_decoded_pairs_valid(input@);
    }
    match decode_pairs(input, pairs) {
        Ok(pairs) => Ok(encode_bool(pairing_product(&pairs, wire))),
        Err(e) => Err(e),
    }
}

/// Maps a field element to G1: 64 bytes in; 128 bytes out.
pub fn map_fp_to_g1_bytes(input: &[u8]) -> (res: Result<[u8; 128], ErrorKind>)
    ensures
        match res {
            Ok(out) => map_fp_to_g1_bytes_spec(input@) == Ok::<Seq<u8>, ErrorKind>(out@),
            Err(e) => map_fp_to_g1_bytes_spec(input@) == Err::<Seq<u8>, ErrorKind>(e),
        },
        match res {
            Ok(out) => g1_encoding_canonical(out@)
                && (decode_g1_checked_spec(out@, true) is Ok),
            Err(_) => true,
        },
{
    match decode_fp(input) {
        Ok(u) => {
            let p = map_fp_to_g1(&u);
            proof {
                lemma_decode_encode_g1(p@);
            }
            Ok(encode_g1(&p))
        },
        Err(e) => Err(e),
    }
}

/// Maps an extension-field element to G2: 128 bytes in; 256 bytes out.
pub fn map_fp2_to_g2_bytes(input: &[u8]) -> (res: Result<[u8; 256], ErrorKind>)
    ensures
        match res {
            Ok(out) => map_fp2_to_g2_bytes_spec(input@) == Ok::<Seq<u8>, ErrorKind>(out@),
            Err(e) => map_fp2_to_g2_bytes_spec(input@) == Err::<Seq<u8>, ErrorKind>(e),
        },
        match res {
            Ok(out) => g2_encoding_canonical(out@)
                && (decode_g2_checked_spec(out@, true) is Ok),
            Err(_) => true,
        },
{
    match decode_fp2(input) {
        Ok(u) => {
            let p = map_fp2_to_g2(&u);
            proof {
                lemma_decode_encode_g2(p@);
            }
            Ok(encode_g2(&p))
        },
        Err(e) => Err(e),
    }
}

} // verus!
