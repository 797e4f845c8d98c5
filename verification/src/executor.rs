//! The operations as one executor, with every error reported as its fixed
//! text.
use crate::error::{status_text, ErrorKind};
use crate::g1::{decode_g1_checked_spec, g1_encoding_canonical, G1Point};
use crate::g2::{decode_g2_checked_spec, g2_encoding_canonical, G2Point};
use crate::msm::Strategy;
use crate::precompile::{
    add_spec, encoded, g1_add, g1_mul, g1_multiexp_with, g2_add, g2_mul, g2_multiexp_with,
    map_fp2_to_g2_bytes, map_fp2_to_g2_bytes_spec, map_fp_to_g1_bytes, map_fp_to_g1_bytes_spec,
    mul_spec, multiexp_input_spec, pairing, pairing_spec,
};
use vstd::prelude::*;

verus! {

/// What the executor answers for what an operation answers: the output, or
/// the text of the error.
pub open spec fn reported(
    res: Result<Seq<u8>, Seq<char>>,
    spec: Result<Seq<u8>, ErrorKind>,
) -> bool {
    match spec {
        Ok(out) => res == Ok::<Seq<u8>, Seq<char>>(out),
        Err(e) => res == Err::<Seq<u8>, Seq<char>>(status_text(e.spec_code())),
    }
}

/// What the executor may answer for an operation with working memory: what
/// the operation answers when memory suffices, or, where that is no error,
/// the text of `MemoryError`.
pub open spec fn reported_allowing_memory_error(
    res: Result<Seq<u8>, Seq<char>>,
    spec: Result<Seq<u8>, ErrorKind>,
) -> bool {
    reported(res, spec) || (spec is Ok && res == Err::<Seq<u8>, Seq<char>>(
        status_text(ErrorKind::MemoryError.spec_code()),
    ))
}

/// The executor of the operations. It holds no state: every operation is a
/// function of its input alone.
pub struct blstEIP2537Executor;

impl blstEIP2537Executor {
    /// The fixed text of a status code; zero is success, and a code that
    /// stands for nothing has a text of its own.
    pub fn decode_eip2537_error(err: u32) -> (text: &'static str)
        ensures
            text@ == status_text(err),
    {
        if err == 0 {
            "Success"
        } else {
            match ErrorKind::from_code(err) {
                Some(kind) => kind.message(),
                None => "unknown error condition",
            }
        }
    }

    /// Addition in G1. Both points must be on the curve; neither need be in
    /// the subgroup.
    pub fn g1_add(input: &[u8]) -> (res: Result<[u8; 128], &'static str>)
        ensures
            reported(
                match res {
                    Ok(out) => Ok(out@),
                    Err(text) => Err(text@),
                },
                encoded::<G1Point>(add_spec::<G1Point>(input@)),
            ),
            match res {
                Ok(out) => g1_encoding_canonical(out@),
                Err(_) => true,
            },
    {
        match g1_add(input) {
            Ok(out) => Ok(out),
            Err(e) => Err(Self::decode_eip2537_error(e.code())),
        }
    }

    /// Scalar multiplication in G1. The point must be on the curve and in
    /// the subgroup.
    pub fn g1_mul(input: &[u8]) -> (res: Result<[u8; 128], &'static str>)
        ensures
            reported(
                match res {
                    Ok(out) => Ok(out@),
                    Err(text) => Err(text@),
                },
                encoded::<G1Point>(mul_spec::<G1Point>(input@)),
            ),
            match res {
                Ok(out) => g1_encoding_canonical(out@),
                Err(_) => true,
            },
    {
        match g1_mul(input) {
            Ok(out) => Ok(out),
            Err(e) => Err(Self::decode_eip2537_error(e.code())),
        }
    }

    /// Multi-scalar multiplication in G1, by buckets.
    pub fn g1_multiexp(input: &[u8]) -> (res: Result<[u8; 128], &'static str>)
        ensures
            reported_allowing_memory_error(
                match res {
                    Ok(out) => Ok(out@),
                    Err(text) => Err(text@),
                },
                encoded::<G1Point>(multiexp_input_spec::<G1Point>(input@, Strategy::Bucket)),
            ),
            match res {
                Ok(out) => g1_encoding_canonical(out@),
                Err(_) => true,
            },
    {
        match g1_multiexp_with(input, Strategy::Bucket) {
            Ok(out) => Ok(out),
            Err(e) => Err(Self::decode_eip2537_error(e.code())),
        }
    }

    /// Multi-scalar multiplication in G1, one scalar multiplication for each
    /// term.
    pub fn g1_multiexp_naive(input: &[u8]) -> (res: Result<[u8; 128], &'static str>)
        ensures
            reported_allowing_memory_error(
                match res {
                    Ok(out) => Ok(out@),
                    Err(text) => Err(text@),
                },
                encoded::<G1Point>(multiexp_input_spec::<G1Point>(input@, Strategy::Naive)),
            ),
            match res {
                Ok(out) => g1_encoding_canonical(out@),
                Err(_) => true,
            },
    {
        match g1_multiexp_with(input, Strategy::Naive) {
            Ok(out) => Ok(out),
            Err(e) => Err(Self::decode_eip2537_error(e.code())),
        }
    }

    /// Multi-scalar multiplication in G1, by buckets that are weighted one
    /// by one, to hold against the bucket strategy.
    pub fn g1_multiexp_bc(input: &[u8]) -> (res: Result<[u8; 128], &'static str>)
        ensures
            reported_allowing_memory_error(
                match res {
                    Ok(out) => Ok(out@),
                    Err(text) => Err(text@),
                },
                encoded::<G1Point>(
                    multiexp_input_spec::<G1Point>(input@, Strategy::ReferenceBucket),
                ),
            ),
            match res {
                Ok(out) => g1_encoding_canonical(out@),
                Err(_) => true,
            },
    {
        match g1_multiexp_with(input, Strategy::ReferenceBucket) {
            Ok(out) => Ok(out),
            Err(e) => Err(Self::decode_eip2537_error(e.code())),
        }
    }

    /// Addition in G2. Both points must be on the curve; neither need be in
    /// the subgroup.
    pub fn g2_add(input: &[u8]) -> (res: Result<[u8; 256], &'static str>)
        ensures
            reported(
                match res {
                    Ok(out) => Ok(out@),
                    Err(text) => Err(text@),
                },
                encoded::<G2Point>(add_spec::<G2Point>(input@)),
            ),
            match res {
                Ok(out) => g2_encoding_canonical(out@),
                Err(_) => true,
            },
    {
        match g2_add(input) {
            Ok(out) => Ok(out),
            Err(e) => Err(Self::decode_eip2537_error(e.code())),
        }
    }

    /// Scalar multiplication in G2. The point must be on the curve and in
    /// the subgroup.
    pub fn g2_mul(input: &[u8]) -> (res: Result<[u8; 256], &'static str>)
        ensures
            reported(
                match res {
                    Ok(out) => Ok(out@),
                    Err(text) => Err(text@),
                },
                encoded::<G2Point>(mul_spec::<G2Point>(input@)),
            ),
            match res {
                Ok(out) => g2_encoding_canonical(out@),
                Err(_) => true,
            },
    {
        match g2_mul(input) {
            Ok(out) => Ok(out),
            Err(e) => Err(Self::decode_eip2537_error(e.code())),
        }
    }

    /// Multi-scalar multiplication in G2, by buckets.
    pub fn g2_multiexp(input: &[u8]) -> (res: Result<[u8; 256], &'static str>)
        ensures
            reported_allowing_memory_error(
                match res {
                    Ok(out) => Ok(out@),
                    Err(text) => Err(text@),
                },
                encoded::<G2Point>(multiexp_input_spec::<G2Point>(input@, Strategy::Bucket)),
            ),
            match res {
                Ok(out) => g2_encoding_canonical(out@),
                Err(_) => true,
            },
    {
        match g2_multiexp_with(input, Strategy::Bucket) {
            Ok(out) => Ok(out),
            Err(e) => Err(Self::decode_eip2537_error(e.code())),
        }
    }

    /// Multi-scalar multiplication in G2, one scalar multiplication for each
    /// term.
    pub fn g2_multiexp_naive(input: &[u8]) -> (res: Result<[u8; 256], &'static str>)
        ensures
            reported_allowing_memory_error(
                match res {
                    Ok(out) => Ok(out@),
                    Err(text) => Err(text@),
                },
                encoded::<G2Point>(multiexp_input_spec::<G2Point>(input@, Strategy::Naive)),
            ),
            match res {
                Ok(out) => g2_encoding_canonical(out@),
                Err(_) => true,
            },
    {
        match g2_multiexp_with(input, Strategy::Naive) {
            Ok(out) => Ok(out),
            Err(e) => Err(Self::decode_eip2537_error(e.code())),
        }
    }

    /// Multi-scalar multiplication in G2, by buckets that are weighted one
    /// by one, to hold against the bucket strategy.
    pub fn g2_multiexp_bc(input: &[u8]) -> (res: Result<[u8; 256], &'static str>)
        ensures
            reported_allowing_memory_error(
                match res {
                    Ok(out) => Ok(out@),
                    Err(text) => Err(text@),
                },
                encoded::<G2Point>(
                    multiexp_input_spec::<G2Point>(input@, Strategy::ReferenceBucket),
                ),
            ),
            match res {
                Ok(out) => g2_encoding_canonical(out@),
                Err(_) => true,
            },
    {
        match g2_multiexp_with(input, Strategy::ReferenceBucket) {
            Ok(out) => Ok(out),
            Err(e) => Err(Self::decode_eip2537_error(e.code())),
        }
    }

    /// The pairing check. Every point of every pair must be on its curve and
    /// in its subgroup.
    pub fn pairing(input: &[u8]) -> (res: Result<[u8; 32], &'static str>)
        ensures
            reported_allowing_memory_error(
                match res {
                    Ok(out) => Ok(out@),
                    Err(text) => Err(text@),
                },
                pairing_spec(input@),
            ),
    {
        match pairing(input) {
            Ok(out) => Ok(out),
            Err(e) => Err(Self::decode_eip2537_error(e.code())),
        }
    }

    /// Maps a field element to a point of G1.
    pub fn map_fp_to_g1(input: &[u8]) -> (res: Result<[u8; 128], &'static str>)
        ensures
            reported(
                match res {
                    Ok(out) => Ok(out@),
                    Err(text) => Err(text@),
                },
                map_fp_to_g1_bytes_spec(input@),
            ),
            match res {
                Ok(out) => g1_encoding_canonical(out@)
                    && (decode_g1_checked_spec(out@, true) is Ok),
                Err(_) => true,
            },
    {
        match map_fp_to_g1_bytes(input) {
            Ok(out) => Ok(out),
            Err(e) => Err(Self::decode_eip2537_error(e.code())),
        }
    }

    /// Maps an extension-field element to a point of G2.
    pub fn map_fp2_to_g2(input: &[u8]) -> (res: Result<[u8; 256], &'static str>)
        ensures
            reported(
                match res {
                    Ok(out) => Ok(out@),
                    Err(text) => Err(text@),
                },
                map_fp2_to_g2_bytes_spec(input@),
            ),
            match res {
                Ok(out) => g2_encoding_canonical(out@)
                    && (decode_g2_checked_spec(out@, true) is Ok),
                Err(_) => true,
            },
    {
        match map_fp2_to_g2_bytes(input) {
            Ok(out) => Ok(out),
            Err(e) => Err(Self::decode_eip2537_error(e.code())),
        }
    }
}

} // verus!
