//! What holds of the codec and of the operations on every input.
use crate::bytes::{
    all_zero, be_bytes, be_nat, lemma_be_bytes_len, lemma_be_bytes_of_be_nat,
    lemma_be_nat_of_be_bytes, lemma_be_nat_zero, zeros,
};
use crate::error::ErrorKind;
use crate::field::{
    decode_fp_spec, encode_fp2_spec, encode_fp_spec, lemma_decode_encode_fp,
    lemma_decode_encode_fp2, lemma_encode_decode_fp, lemma_modulus_bytes, lemma_modulus_fits,
    modulus, MODULUS_BYTES,
};
use crate::g1::{
    decode_g1_checked_spec, decode_g1_spec, encode_g1_spec, g1_in_subgroup, g1_on_curve, g1_product_value, g1_reduced,
    g1_sum_value, g1_to_wire, lemma_g1_wire_of_value, parse_g1_spec, G1Point, G1Value,
};
use crate::g2::{
    decode_g2_checked_spec, decode_g2_spec, encode_g2_spec, g2_in_subgroup, g2_on_curve, g2_product_value, g2_reduced,
    g2_sum_value, g2_to_wire, lemma_g2_wire_of_value, parse_g2_spec, G2Point, G2Value,
};
use crate::precompile::{add_spec, encoded, map_fp_to_g1_bytes_spec, mul_spec};
use vstd::prelude::*;

verus! {

/// A number below the modulus that is not zero is written with a byte that
/// is not zero.
proof fn lemma_nonzero_digits(v: nat)
    requires
        0 < v < modulus(),
    ensures
        !all_zero(encode_fp_spec(v)),
{
    let digits = be_bytes(v, 48);
    lemma_be_bytes_len(v, 48);
    lemma_modulus_fits();
    lemma_be_nat_of_be_bytes(v, 48);
    lemma_be_nat_zero(digits);
    let i = choose|i: int| 0 <= i < digits.len() && digits[i] != 0;
    assert(encode_fp_spec(v)[16 + i] == digits[i]);
}

/// Decoding is the inverse of encoding on G1: every point with reduced
/// coordinates that is on the curve is what decoding its encoding gives.
pub proof fn lemma_decode_encode_g1(p: G1Value)
    requires
        g1_reduced(p),
        g1_on_curve(p),
    ensures
        decode_g1_spec(encode_g1_spec(p)) == Ok::<G1Value, ErrorKind>(p),
        parse_g1_spec(encode_g1_spec(p)) == Ok::<G1Value, ErrorKind>(p),
        encode_g1_spec(p).len() == 128,
{
    let s = encode_g1_spec(p);
    match p {
        G1Value::Identity => {},
        G1Value::Affine { x, y } => {
            lemma_be_bytes_len(x, 48);
            lemma_be_bytes_len(y, 48);
            lemma_decode_encode_fp(x);
            lemma_decode_encode_fp(y);
            assert(s.take(64) =~= encode_fp_spec(x));
            assert(s.skip(64) =~= encode_fp_spec(y));
            if x != 0 {
                lemma_nonzero_digits(x);
                let i = choose|i: int| 0 <= i < 64 && encode_fp_spec(x)[i] != 0;
                assert(s[i] == encode_fp_spec(x)[i]);
            } else {
                assert(y != 0);
                lemma_nonzero_digits(y);
                let i = choose|i: int| 0 <= i < 64 && encode_fp_spec(y)[i] != 0;
                assert(s[64 + i] == encode_fp_spec(y)[i]);
            }
        },
    }
}

/// Decoding is the inverse of encoding on G2: every point with reduced
/// coordinates that is on the curve is what decoding its encoding gives.
pub proof fn lemma_decode_encode_g2(p: G2Value)
    requires
        g2_reduced(p),
        g2_on_curve(p),
    ensures
        decode_g2_spec(encode_g2_spec(p)) == Ok::<G2Value, ErrorKind>(p),
        parse_g2_spec(encode_g2_spec(p)) == Ok::<G2Value, ErrorKind>(p),
        encode_g2_spec(p).len() == 256,
{
    let s = encode_g2_spec(p);
    match p {
        G2Value::Identity => {},
        G2Value::Affine { x, y } => {
            lemma_be_bytes_len(x.c0, 48);
            lemma_be_bytes_len(x.c1, 48);
            lemma_be_bytes_len(y.c0, 48);
            lemma_be_bytes_len(y.c1, 48);
            lemma_decode_encode_fp2(x);
            lemma_decode_encode_fp2(y);
            assert(s.take(128) =~= encode_fp2_spec(x));
            assert(s.skip(128) =~= encode_fp2_spec(y));
            if x.c0 != 0 {
                lemma_nonzero_digits(x.c0);
                let i = choose|i: int| 0 <= i < 64 && encode_fp_spec(x.c0)[i] != 0;
                assert(s[i] == encode_fp_spec(x.c0)[i]);
            } else if x.c1 != 0 {
                lemma_nonzero_digits(x.c1);
                let i = choose|i: int| 0 <= i < 64 && encode_fp_spec(x.c1)[i] != 0;
                assert(s[64 + i] == encode_fp_spec(x.c1)[i]);
            } else if y.c0 != 0 {
                lemma_nonzero_digits(y.c0);
                let i = choose|i: int| 0 <= i < 64 && encode_fp_spec(y.c0)[i] != 0;
                assert(s[128 + i] == encode_fp_spec(y.c0)[i]);
            } else {
                assert(y.c1 != 0);
                lemma_nonzero_digits(y.c1);
                let i = choose|i: int| 0 <= i < 64 && encode_fp_spec(y.c1)[i] != 0;
                assert(s[192 + i] == encode_fp_spec(y.c1)[i]);
            }
        },
    }
}

/// The point at infinity of G1 passes every validation: all zeros decode to
/// it, with and without the test of the subgroup.
pub proof fn lemma_identity_is_accepted_g1()
    ensures
        decode_g1_checked_spec(zeros(128), true) == Ok::<G1Value, ErrorKind>(G1Value::Identity),
        decode_g1_checked_spec(zeros(128), false) == Ok::<G1Value, ErrorKind>(G1Value::Identity),
        decode_g1_spec(zeros(128)) == Ok::<G1Value, ErrorKind>(G1Value::Identity),
{
}

/// The point at infinity of G2 passes every validation: all zeros decode to
/// it, with and without the test of the subgroup.
pub proof fn lemma_identity_is_accepted_g2()
    ensures
        decode_g2_checked_spec(zeros(256), true) == Ok::<G2Value, ErrorKind>(G2Value::Identity),
        decode_g2_checked_spec(zeros(256), false) == Ok::<G2Value, ErrorKind>(G2Value::Identity),
        decode_g2_spec(zeros(256)) == Ok::<G2Value, ErrorKind>(G2Value::Identity),
{
}

/// The point at infinity is the neutral element of G1: added to a point
/// of the curve, on either side, it gives that point, and so does the
/// addition of the two encodings.
pub proof fn lemma_identity_is_neutral_g1(p: G1Value)
    requires
        g1_reduced(p),
        g1_on_curve(p),
    ensures
        g1_sum_value(p, G1Value::Identity) == p,
        g1_sum_value(G1Value::Identity, p) == p,
        add_spec::<G1Point>(encode_g1_spec(p) + zeros(128)) == Ok::<G1Value, ErrorKind>(p),
        add_spec::<G1Point>(zeros(128) + encode_g1_spec(p)) == Ok::<G1Value, ErrorKind>(p),
{
    lemma_decode_encode_g1(p);
    lemma_decode_encode_g1(G1Value::Identity);
    let right = encode_g1_spec(p) + zeros(128);
    assert(right.take(128) =~= encode_g1_spec(p));
    assert(right.skip(128) =~= zeros(128));
    let left = zeros(128) + encode_g1_spec(p);
    assert(left.take(128) =~= zeros(128));
    assert(left.skip(128) =~= encode_g1_spec(p));
}

/// The product of a point of the subgroup of G1 with the scalar zero is the
/// point at infinity.
pub proof fn lemma_product_with_zero_g1(p: G1Value)
    requires
        g1_reduced(p),
        g1_on_curve(p),
        g1_in_subgroup(p),
    ensures
        g1_product_value(p, 0) == G1Value::Identity,
        mul_spec::<G1Point>(encode_g1_spec(p) + zeros(32)) == Ok::<G1Value, ErrorKind>(
            G1Value::Identity,
        ),
{
    lemma_decode_encode_g1(p);
    lemma_be_nat_zero(zeros(32));
    let term = encode_g1_spec(p) + zeros(32);
    assert(term.take(128) =~= encode_g1_spec(p));
    assert(term.skip(128) =~= zeros(32));
}

/// Addition commutes in G1: the sum of two points of the curve does not
/// depend on their order, and neither does the addition of their encodings.
pub proof fn lemma_sum_commutes_g1(p: G1Value, q: G1Value)
    requires
        g1_reduced(p),
        g1_reduced(q),
        g1_on_curve(p),
        g1_on_curve(q),
    ensures
        g1_sum_value(p, q) == g1_sum_value(q, p),
        add_spec::<G1Point>(encode_g1_spec(p) + encode_g1_spec(q)) == add_spec::<G1Point>(
            encode_g1_spec(q) + encode_g1_spec(p),
        ),
{
    let a = g1_to_wire(p);
    let b = g1_to_wire(q);
    lemma_g1_wire_of_value(p);
    lemma_g1_wire_of_value(q);
    if be_nat(a) == be_nat(b) {
        lemma_be_bytes_of_be_nat(a);
        lemma_be_bytes_of_be_nat(b);
    }
    lemma_decode_encode_g1(p);
    lemma_decode_encode_g1(q);
    let forth = encode_g1_spec(p) + encode_g1_spec(q);
    assert(forth.take(128) =~= encode_g1_spec(p));
    assert(forth.skip(128) =~= encode_g1_spec(q));
    let back = encode_g1_spec(q) + encode_g1_spec(p);
    assert(back.take(128) =~= encode_g1_spec(q));
    assert(back.skip(128) =~= encode_g1_spec(p));
}

/// The point at infinity is the neutral element of G2: added to a point
/// of the curve, on either side, it gives that point, and so does the
/// addition of the two encodings.
pub proof fn lemma_identity_is_neutral_g2(p: G2Value)
    requires
        g2_reduced(p),
        g2_on_curve(p),
    ensures
        g2_sum_value(p, G2Value::Identity) == p,
        g2_sum_value(G2Value::Identity, p) == p,
        add_spec::<G2Point>(encode_g2_spec(p) + zeros(256)) == Ok::<G2Value, ErrorKind>(p),
        add_spec::<G2Point>(zeros(256) + encode_g2_spec(p)) == Ok::<G2Value, ErrorKind>(p),
{
    lemma_decode_encode_g2(p);
    lemma_decode_encode_g2(G2Value::Identity);
    let right = encode_g2_spec(p) + zeros(256);
    assert(right.take(256) =~= encode_g2_spec(p));
    assert(right.skip(256) =~= zeros(256));
    let left = zeros(256) + encode_g2_spec(p);
    assert(left.take(256) =~= zeros(256));
    assert(left.skip(256) =~= encode_g2_spec(p));
}

/// The product of a point of the subgroup of G2 with the scalar zero is the
/// point at infinity.
pub proof fn lemma_product_with_zero_g2(p: G2Value)
    requires
        g2_reduced(p),
        g2_on_curve(p),
        g2_in_subgroup(p),
    ensures
        g2_product_value(p, 0) == G2Value::Identity,
        mul_spec::<G2Point>(encode_g2_spec(p) + zeros(32)) == Ok::<G2Value, ErrorKind>(
            G2Value::Identity,
        ),
{
    lemma_decode_encode_g2(p);
    lemma_be_nat_zero(zeros(32));
    let term = encode_g2_spec(p) + zeros(32);
    assert(term.take(256) =~= encode_g2_spec(p));
    assert(term.skip(256) =~= zeros(32));
}

/// Addition commutes in G2: the sum of two points of the curve does not
/// depend on their order, and neither does the addition of their encodings.
pub proof fn lemma_sum_commutes_g2(p: G2Value, q: G2Value)
    requires
        g2_reduced(p),
        g2_reduced(q),
        g2_on_curve(p),
        g2_on_curve(q),
    ensures
        g2_sum_value(p, q) == g2_sum_value(q, p),
        add_spec::<G2Point>(encode_g2_spec(p) + encode_g2_spec(q)) == add_spec::<G2Point>(
            encode_g2_spec(q) + encode_g2_spec(p),
        ),
{
    let a = g2_to_wire(p);
    let b = g2_to_wire(q);
    lemma_g2_wire_of_value(p);
    lemma_g2_wire_of_value(q);
    if be_nat(a) == be_nat(b) {
        lemma_be_bytes_of_be_nat(a);
        lemma_be_bytes_of_be_nat(b);
    }
    lemma_decode_encode_g2(p);
    lemma_decode_encode_g2(q);
    let forth = encode_g2_spec(p) + encode_g2_spec(q);
    assert(forth.take(256) =~= encode_g2_spec(p));
    assert(forth.skip(256) =~= encode_g2_spec(q));
    let back = encode_g2_spec(q) + encode_g2_spec(p);
    assert(back.take(256) =~= encode_g2_spec(q));
    assert(back.skip(256) =~= encode_g2_spec(p));
}

/// Encoding is the inverse of decoding on G1: every input that holds the
/// coordinates of a point is the encoding of that point.
pub proof fn lemma_encode_decode_g1(s: Seq<u8>)
    requires
        parse_g1_spec(s) is Ok,
    ensures
        encode_g1_spec(parse_g1_spec(s)->Ok_0) == s,
{
    if !all_zero(s) {
        lemma_encode_decode_fp(s.take(64));
        lemma_encode_decode_fp(s.skip(64));
        assert(s.take(64) + s.skip(64) =~= s);
    } else {
        assert(zeros(128) =~= s);
    }
}

/// A point that passes validation with the subgroup test is multiplied: the
/// product of its encoding with any scalar is no error.
pub proof fn lemma_valid_point_is_multiplied_g1(s: Seq<u8>, k: Seq<u8>)
    requires
        decode_g1_checked_spec(s, true) is Ok,
        k.len() == 32,
    ensures
        mul_spec::<G1Point>(s + k) is Ok,
{
    let term = s + k;
    assert(term.take(128) =~= s);
}

/// The product with the scalar one is the point itself: an encoded point
/// that passes validation, followed by the scalar one, gives the same
/// encoding back.
pub proof fn lemma_product_with_one_g1(s: Seq<u8>)
    requires
        decode_g1_checked_spec(s, true) is Ok,
    ensures
        mul_spec::<G1Point>(s + zeros(31).push(1u8)) == Ok::<G1Value, ErrorKind>(
            parse_g1_spec(s)->Ok_0,
        ),
        encoded::<G1Point>(mul_spec::<G1Point>(s + zeros(31).push(1u8))) == Ok::<
            Seq<u8>,
            ErrorKind,
        >(s),
{
    let one = zeros(31).push(1u8);
    let term = s + one;
    assert(term.take(128) =~= s);
    assert(term.skip(128) =~= one);
    assert(one.drop_last() =~= zeros(31));
    lemma_be_nat_zero(zeros(31));
    assert(be_nat(one) == 1);
    lemma_encode_decode_g1(s);
}

/// Encoding is the inverse of decoding on G2: every input that holds the
/// coordinates of a point is the encoding of that point.
pub proof fn lemma_encode_decode_g2(s: Seq<u8>)
    requires
        parse_g2_spec(s) is Ok,
    ensures
        encode_g2_spec(parse_g2_spec(s)->Ok_0) == s,
{
    if !all_zero(s) {
        let x = s.take(128);
        let y = s.skip(128);
        lemma_encode_decode_fp(x.take(64));
        lemma_encode_decode_fp(x.skip(64));
        lemma_encode_decode_fp(y.take(64));
        lemma_encode_decode_fp(y.skip(64));
        assert(x.take(64) + x.skip(64) =~= x);
        assert(y.take(64) + y.skip(64) =~= y);
        assert(x + y =~= s);
    } else {
        assert(zeros(256) =~= s);
    }
}

/// A point that passes validation with the subgroup test is multiplied: the
/// product of its encoding with any scalar is no error.
pub proof fn lemma_valid_point_is_multiplied_g2(s: Seq<u8>, k: Seq<u8>)
    requires
        decode_g2_checked_spec(s, true) is Ok,
        k.len() == 32,
    ensures
        mul_spec::<G2Point>(s + k) is Ok,
{
    let term = s + k;
    assert(term.take(256) =~= s);
}

/// The product with the scalar one is the point itself: an encoded point
/// that passes validation, followed by the scalar one, gives the same
/// encoding back.
pub proof fn lemma_product_with_one_g2(s: Seq<u8>)
    requires
        decode_g2_checked_spec(s, true) is Ok,
    ensures
        mul_spec::<G2Point>(s + zeros(31).push(1u8)) == Ok::<G2Value, ErrorKind>(
            parse_g2_spec(s)->Ok_0,
        ),
        encoded::<G2Point>(mul_spec::<G2Point>(s + zeros(31).push(1u8))) == Ok::<
            Seq<u8>,
            ErrorKind,
        >(s),
{
    let one = zeros(31).push(1u8);
    let term = s + one;
    assert(term.take(256) =~= s);
    assert(term.skip(256) =~= one);
    assert(one.drop_last() =~= zeros(31));
    lemma_be_nat_zero(zeros(31));
    assert(be_nat(one) == 1);
    lemma_encode_decode_g2(s);
}

/// The subgroup is asked for by scalar multiplication and not by addition,
/// in G1: of two points on the curve, the first outside the subgroup, the
/// sum is computed, and the product of the first with any scalar is refused
/// with `PointNotInSubgroup`.
pub proof fn lemma_subgroup_gating_g1(p: G1Value, q: G1Value, k: nat)
    requires
        g1_reduced(p),
        g1_reduced(q),
        g1_on_curve(p),
        g1_on_curve(q),
        !g1_in_subgroup(p),
    ensures
        add_spec::<G1Point>(encode_g1_spec(p) + encode_g1_spec(q)) == Ok::<G1Value, ErrorKind>(
            g1_sum_value(p, q),
        ),
        mul_spec::<G1Point>(encode_g1_spec(p) + be_bytes(k, 32)) == Err::<G1Value, ErrorKind>(
            ErrorKind::PointNotInSubgroup,
        ),
{
    lemma_decode_encode_g1(p);
    lemma_decode_encode_g1(q);
    lemma_be_bytes_len(k, 32);
    let both = encode_g1_spec(p) + encode_g1_spec(q);
    assert(both.take(128) =~= encode_g1_spec(p));
    assert(both.skip(128) =~= encode_g1_spec(q));
    let term = encode_g1_spec(p) + be_bytes(k, 32);
    assert(term.take(128) =~= encode_g1_spec(p));
}

/// The subgroup is asked for by scalar multiplication and not by addition,
/// in G2.
pub proof fn lemma_subgroup_gating_g2(p: G2Value, q: G2Value, k: nat)
    requires
        g2_reduced(p),
        g2_reduced(q),
        g2_on_curve(p),
        g2_on_curve(q),
        !g2_in_subgroup(p),
    ensures
        add_spec::<G2Point>(encode_g2_spec(p) + encode_g2_spec(q)) == Ok::<G2Value, ErrorKind>(
            g2_sum_value(p, q),
        ),
        mul_spec::<G2Point>(encode_g2_spec(p) + be_bytes(k, 32)) == Err::<G2Value, ErrorKind>(
            ErrorKind::PointNotInSubgroup,
        ),
{
    lemma_decode_encode_g2(p);
    lemma_decode_encode_g2(q);
    lemma_be_bytes_len(k, 32);
    let both = encode_g2_spec(p) + encode_g2_spec(q);
    assert(both.take(256) =~= encode_g2_spec(p));
    assert(both.skip(256) =~= encode_g2_spec(q));
    let term = encode_g2_spec(p) + be_bytes(k, 32);
    assert(term.take(256) =~= encode_g2_spec(p));
}

/// A field element whose digits denote a number that is not below the
/// modulus is refused with `EncodingError`, whatever the number would be when
/// reduced: as a field element, as the input of the map to G1, and as the
/// first coordinate of a point of G1, whatever the second coordinate is.
pub proof fn lemma_unreduced_is_refused(digits: Seq<u8>, rest: Seq<u8>)
    requires
        digits.len() == 48,
        be_nat(digits) >= modulus(),
        rest.len() == 64,
    ensures
        decode_fp_spec(zeros(16) + digits) == Err::<nat, ErrorKind>(ErrorKind::EncodingError),
        map_fp_to_g1_bytes_spec(zeros(16) + digits) == Err::<Seq<u8>, ErrorKind>(
            ErrorKind::EncodingError,
        ),
        decode_g1_spec(zeros(16) + digits + rest) == Err::<G1Value, ErrorKind>(
            ErrorKind::EncodingError,
        ),
{
    let s = zeros(16) + digits;
    assert(s.skip(16) =~= digits);
    let point = s + rest;
    assert(point.take(64) =~= s);
    lemma_be_nat_zero(digits);
    let i = choose|i: int| 0 <= i < digits.len() && digits[i] != 0;
    assert(point[16 + i] == digits[i]);
}

/// The modulus itself, padded as a field element, is no canonical encoding:
/// it is refused with `EncodingError`.
pub proof fn lemma_modulus_is_refused()
    ensures
        decode_fp_spec(zeros(16) + MODULUS_BYTES@) == Err::<nat, ErrorKind>(
            ErrorKind::EncodingError,
        ),
        map_fp_to_g1_bytes_spec(zeros(16) + MODULUS_BYTES@) == Err::<Seq<u8>, ErrorKind>(
            ErrorKind::EncodingError,
        ),
{
    lemma_modulus_bytes();
    lemma_unreduced_is_refused(MODULUS_BYTES@, zeros(64));
}

} // verus!
