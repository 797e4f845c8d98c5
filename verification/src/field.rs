//! Base-field elements and their fixed-width encoding.
use crate::bytes::{
    all_zero, be_bytes, be_nat, is_zero, lemma_be_bytes_len, lemma_be_bytes_of_be_nat,
    lemma_be_nat_of_be_bytes, lemma_be_nat_zero, less_than, pow256, read_array, write_at, zeros,
};
use crate::error::ErrorKind;
use vstd::prelude::*;
use vstd::slice::slice_subrange;

verus! {

/// Width of a field element without padding.
pub const FP_LEN: usize = 48;

/// Width of an encoded field element: sixteen zero bytes, then the element.
pub const FP_ENCODED_LEN: usize = 64;

/// Width of the zero padding in front of an encoded field element.
pub const FP_PAD_LEN: usize = 16;

/// The prime modulus of the base field.
pub open spec fn modulus() -> nat {
    0x1a0111ea397fe69a4b1ba7b6434bacd764774b84f38512bf6730d2a0f6b0f6241eabfffeb153ffffb9feffffffffaaabnat
}

/// The modulus, written out big-endian.
pub const MODULUS_BYTES: [u8; 48] = [
    0x1a, 0x01, 0x11, 0xea, 0x39, 0x7f, 0xe6, 0x9a, 0x4b, 0x1b, 0xa7, 0xb6,
    0x43, 0x4b, 0xac, 0xd7, 0x64, 0x77, 0x4b, 0x84, 0xf3, 0x85, 0x12, 0xbf,
    0x67, 0x30, 0xd2, 0xa0, 0xf6, 0xb0, 0xf6, 0x24, 0x1e, 0xab, 0xff, 0xfe,
    0xb1, 0x53, 0xff, 0xff, 0xb9, 0xfe, 0xff, 0xff, 0xff, 0xff, 0xaa, 0xab,
];

/// The byte constant denotes the modulus.
pub proof fn lemma_modulus_bytes()
    ensures
        be_nat(MODULUS_BYTES@) == modulus(),
{
    reveal_with_fuel(be_nat, 49);
}

/// Every field element fits in forty-eight bytes.
pub proof fn lemma_modulus_fits()
    ensures
        modulus() < pow256(48),
{
    reveal_with_fuel(pow256, 49);
}

/// An element `c0 + c1 u` of the quadratic extension, where `u * u = -1`.
pub struct Fp2Value {
    pub c0: nat,
    pub c1: nat,
}

/// The product of two extension-field elements.
pub open spec fn fp2_mul(a: Fp2Value, b: Fp2Value) -> Fp2Value {
    Fp2Value {
        c0: ((a.c0 * b.c0 - a.c1 * b.c1) % (modulus() as int)) as nat,
        c1: (a.c0 * b.c1 + a.c1 * b.c0) % modulus(),
    }
}

/// Both components are reduced.
pub open spec fn fp2_reduced(a: Fp2Value) -> bool {
    a.c0 < modulus() && a.c1 < modulus()
}

/// Whether a 64-byte encoding is canonical: sixteen zero bytes, then a
/// big-endian number below the modulus.
pub open spec fn fp_canonical(s: Seq<u8>) -> bool {
    &&& s.len() == FP_ENCODED_LEN
    &&& all_zero(s.take(FP_PAD_LEN as int))
    &&& be_nat(s.skip(FP_PAD_LEN as int)) < modulus()
}

/// What decoding an encoded field element gives.
pub open spec fn decode_fp_spec(s: Seq<u8>) -> Result<nat, ErrorKind> {
    if s.len() == 0 {
        Err(ErrorKind::EmptyInput)
    } else if s.len() != FP_ENCODED_LEN {
        Err(ErrorKind::InvalidLength)
    } else if !fp_canonical(s) {
        Err(ErrorKind::EncodingError)
    } else {
        Ok(be_nat(s.skip(FP_PAD_LEN as int)))
    }
}

/// The 64-byte encoding of a field element.
pub open spec fn encode_fp_spec(v: nat) -> Seq<u8> {
    zeros(FP_PAD_LEN as nat) + be_bytes(v, FP_LEN as nat)
}

/// What decoding an encoded extension-field element gives: `c0` comes first.
pub open spec fn decode_fp2_spec(s: Seq<u8>) -> Result<Fp2Value, ErrorKind> {
    if s.len() == 0 {
        Err(ErrorKind::EmptyInput)
    } else if s.len() != 2 * FP_ENCODED_LEN {
        Err(ErrorKind::InvalidLength)
    } else {
        match decode_fp_spec(s.take(FP_ENCODED_LEN as int)) {
            Err(e) => Err(e),
            Ok(c0) => match decode_fp_spec(s.skip(FP_ENCODED_LEN as int)) {
                Err(e) => Err(e),
                Ok(c1) => Ok(Fp2Value { c0, c1 }),
            },
        }
    }
}

/// The 128-byte encoding of an extension-field element.
pub open spec fn encode_fp2_spec(v: Fp2Value) -> Seq<u8> {
    encode_fp_spec(v.c0) + encode_fp_spec(v.c1)
}

/// Sixty-four zero bytes are a canonical encoding: that of zero.
pub proof fn lemma_zero_is_canonical()
    ensures
        fp_canonical(zeros(64)),
{
    lemma_be_nat_zero(zeros(64).skip(16));
}

/// An element of the base field, held as its forty-eight big-endian bytes.
#[derive(Clone, Copy, Debug)]
pub struct Fp {
    repr: [u8; 48],
}

impl View for Fp {
    type V = nat;

    closed spec fn view(&self) -> nat {
        be_nat(self.repr@)
    }
}

impl Fp {
    /// The bytes denote a number below the modulus.
    #[verifier::type_invariant]
    pub open spec fn reduced(self) -> bool {
        self@ < modulus()
    }

    /// The zero element.
    pub fn zero() -> (fe: Fp)
        ensures
            fe@ == 0,
    {
        let repr = [0u8; 48];
        proof {
            lemma_be_nat_zero(repr@);
        }
        Fp { repr }
    }

    /// The element that forty-eight big-endian bytes denote, if they denote
    /// a number below the modulus.
    pub fn from_be_bytes(bytes: &[u8; 48]) -> (fe: Option<Fp>)
        ensures
            match fe {
                Some(fe) => fe@ == be_nat(bytes@) && fe@ < modulus(),
                None => be_nat(bytes@) >= modulus(),
            },
    {
        proof {
            lemma_modulus_bytes();
        }
        if less_than(bytes.as_slice(), MODULUS_BYTES.as_slice()) {
            Some(Fp { repr: *bytes })
        } else {
            None
        }
    }

    /// The element that forty-eight big-endian bytes denote, which are known
    /// to denote a number below the modulus.
    pub(crate) fn from_reduced(bytes: [u8; 48]) -> (fe: Fp)
        requires
            be_nat(bytes@) < modulus(),
        ensures
            fe@ == be_nat(bytes@),
    {
        Fp { repr: bytes }
    }

    /// The forty-eight big-endian bytes of this element.
    pub fn to_be_bytes(&self) -> (bytes: [u8; 48])
        ensures
            bytes@ == be_bytes(self@, FP_LEN as nat),
            self@ < modulus(),
    {
        proof {
            use_type_invariant(self);
            lemma_be_bytes_of_be_nat(self.repr@);
        }
        self.repr
    }

    /// Whether this is the zero element.
    pub fn is_zero(&self) -> (zero: bool)
        ensures
            zero == (self@ == 0),
            self@ < modulus(),
    {
        proof {
            use_type_invariant(self);
        }
        is_zero(self.repr.as_slice())
    }
}

/// An element of the quadratic extension field.
#[derive(Clone, Copy, Debug)]
pub struct Fp2 {
    pub c0: Fp,
    pub c1: Fp,
}

impl View for Fp2 {
    type V = Fp2Value;

    open spec fn view(&self) -> Fp2Value {
        Fp2Value { c0: self.c0@, c1: self.c1@ }
    }
}

/// Decodes a 64-byte big-endian field element, rejecting every encoding that
/// is not canonical.
pub fn decode_fp(bytes: &[u8]) -> (res: Result<Fp, ErrorKind>)
    ensures
        match res {
            Ok(fe) => decode_fp_spec(bytes@) == Ok::<nat, ErrorKind>(fe@) && fe@ < modulus(),
            Err(e) => decode_fp_spec(bytes@) == Err::<nat, ErrorKind>(e),
        },
{
    if bytes.len() == 0 {
        return Err(ErrorKind::EmptyInput);
    }
    if bytes.len() != FP_ENCODED_LEN {
        return Err(ErrorKind::InvalidLength);
    }
    let padding = slice_subrange(bytes, 0, FP_PAD_LEN);
    let digits: [u8; 48] = read_array(bytes, FP_PAD_LEN);
    proof {
        assert(padding@ =~= bytes@.take(FP_PAD_LEN as int));
        assert(digits@ =~= bytes@.skip(FP_PAD_LEN as int));
    }
    if !is_zero(padding) {
        return Err(ErrorKind::EncodingError);
    }
    match Fp::from_be_bytes(&digits) {
        Some(fe) => Ok(fe),
        None => Err(ErrorKind::EncodingError),
    }
}

/// Encodes a field element as sixteen zero bytes and its forty-eight
/// big-endian bytes.
pub fn encode_fp(fe: &Fp) -> (out: [u8; 64])
    ensures
        out@ == encode_fp_spec(fe@),
{
    let mut out = [0u8; 64];
    let digits = fe.to_be_bytes();
    write_at(&mut out, FP_PAD_LEN, digits.as_slice());
    proof {
        lemma_be_bytes_len(fe@, FP_LEN as nat);
        assert(out@ =~= encode_fp_spec(fe@));
    }
    out
}

/// Decodes a 128-byte extension-field element, `c0` first.
pub fn decode_fp2(bytes: &[u8]) -> (res: Result<Fp2, ErrorKind>)
    ensures
        match res {
            Ok(fe) => decode_fp2_spec(bytes@) == Ok::<Fp2Value, ErrorKind>(fe@) && fp2_reduced(
                fe@,
            ),
            Err(e) => decode_fp2_spec(bytes@) == Err::<Fp2Value, ErrorKind>(e),
        },
{
    if bytes.len() == 0 {
        return Err(ErrorKind::EmptyInput);
    }
    if bytes.len() != 2 * FP_ENCODED_LEN {
        return Err(ErrorKind::InvalidLength);
    }
    let first = slice_subrange(bytes, 0, FP_ENCODED_LEN);
    let second = slice_subrange(bytes, FP_ENCODED_LEN, 2 * FP_ENCODED_LEN);
    proof {
        assert(first@ =~= bytes@.take(FP_ENCODED_LEN as int));
        assert(second@ =~= bytes@.skip(FP_ENCODED_LEN as int));
    }
    let c0 = match decode_fp(first) {
        Ok(c0) => c0,
        Err(e) => {
            return Err(e);
        },
    };
    let c1 = match decode_fp(second) {
        Ok(c1) => c1,
        Err(e) => {
            return Err(e);
        },
    };
    Ok(Fp2 { c0, c1 })
}

/// Encodes an extension-field element as the encodings of `c0` and `c1`.
pub fn encode_fp2(fe: &Fp2) -> (out: [u8; 128])
    ensures
        out@ == encode_fp2_spec(fe@),
{
    let mut out = [0u8; 128];
    let c0 = encode_fp(&fe.c0);
    let c1 = encode_fp(&fe.c1);
    write_at(&mut out, 0, c0.as_slice());
    write_at(&mut out, FP_ENCODED_LEN, c1.as_slice());
    proof {
        lemma_be_bytes_len(fe.c0@, FP_LEN as nat);
        lemma_be_bytes_len(fe.c1@, FP_LEN as nat);
        assert(out@ =~= encode_fp2_spec(fe@));
    }
    out
}

/// Decoding undoes encoding, for every field element.
pub proof fn lemma_decode_encode_fp(v: nat)
    requires
        v < modulus(),
    ensures
        decode_fp_spec(encode_fp_spec(v)) == Ok::<nat, ErrorKind>(v),
{
    let s = encode_fp_spec(v);
    lemma_be_bytes_len(v, FP_LEN as nat);
    lemma_modulus_fits();
    lemma_be_nat_of_be_bytes(v, FP_LEN as nat);
    assert(s.take(FP_PAD_LEN as int) =~= zeros(FP_PAD_LEN as nat));
    assert(s.skip(FP_PAD_LEN as int) =~= be_bytes(v, FP_LEN as nat));
}

/// Encoding undoes decoding: a canonical encoding is the only encoding of
/// its element.
pub proof fn lemma_encode_decode_fp(s: Seq<u8>)
    requires
        fp_canonical(s),
    ensures
        encode_fp_spec(be_nat(s.skip(FP_PAD_LEN as int))) == s,
{
    lemma_be_bytes_of_be_nat(s.skip(FP_PAD_LEN as int));
    assert(s.take(FP_PAD_LEN as int) =~= zeros(FP_PAD_LEN as nat));
    assert(zeros(FP_PAD_LEN as nat) + s.skip(FP_PAD_LEN as int) =~= s);
}

/// Decoding undoes encoding, for every extension-field element.
pub proof fn lemma_decode_encode_fp2(v: Fp2Value)
    requires
        fp2_reduced(v),
    ensures
        decode_fp2_spec(encode_fp2_spec(v)) == Ok::<Fp2Value, ErrorKind>(v),
{
    let s = encode_fp2_spec(v);
    lemma_be_bytes_len(v.c0, FP_LEN as nat);
    lemma_be_bytes_len(v.c1, FP_LEN as nat);
    lemma_decode_encode_fp(v.c0);
    lemma_decode_encode_fp(v.c1);
    assert(s.take(FP_ENCODED_LEN as int) =~= encode_fp_spec(v.c0));
    assert(s.skip(FP_ENCODED_LEN as int) =~= encode_fp_spec(v.c1));
}

} // verus!
