//! Scalars: 32-byte big-endian unsigned integers of any value.
use crate::bytes::{be_bytes, be_nat, is_zero, lemma_be_bytes_of_be_nat, read_array, zeros};
use crate::error::ErrorKind;
use vstd::prelude::*;
use vstd::slice::slice_subrange;

verus! {

/// Width of an encoded scalar.
pub const SCALAR_LEN: usize = 32;

/// Number of four-bit windows in a scalar.
pub const WINDOW_COUNT: usize = 64;

/// Number of values that a four-bit window can take.
pub const BUCKET_COUNT: usize = 16;

/// A scalar. Any 32 bytes are one: the group law, not the codec, reduces it
/// modulo the order of the group.
#[derive(Clone, Copy, Debug)]
pub struct Scalar {
    bytes: [u8; 32],
}

impl View for Scalar {
    type V = nat;

    closed spec fn view(&self) -> nat {
        be_nat(self.bytes@)
    }
}

/// What decoding a scalar gives: the number that the 32 bytes denote.
pub open spec fn decode_scalar_spec(s: Seq<u8>) -> Result<nat, ErrorKind> {
    if s.len() == 0 {
        Err(ErrorKind::EmptyInput)
    } else if s.len() != SCALAR_LEN {
        Err(ErrorKind::InvalidLength)
    } else {
        Ok(be_nat(s))
    }
}

/// A scalar as the curve arithmetic takes it: its 32 bytes from the least
/// significant to the most significant, then 32 zero bytes.
pub open spec fn wide_scalar(k: nat) -> Seq<u8> {
    be_bytes(k, SCALAR_LEN as nat).reverse() + zeros(32)
}

/// A number with its `w` lowest four-bit windows dropped.
pub open spec fn shifted(k: nat, w: nat) -> nat
    decreases w,
{
    if w == 0 {
        k
    } else {
        shifted(k, (w - 1) as nat) / 16
    }
}

/// The four-bit window of a number at position `w`, counted from the least
/// significant.
pub open spec fn window_digit(k: nat, w: nat) -> nat {
    shifted(k, w) % 16
}

/// Dropping two windows drops one byte.
pub proof fn lemma_shifted_bytes(s: Seq<u8>, i: nat)
    requires
        i <= s.len(),
    ensures
        shifted(be_nat(s), 2 * i) == be_nat(s.take(s.len() - i)),
    decreases i,
{
    if i == 0 {
        assert(s.take(s.len() as int) =~= s);
    } else {
        lemma_shifted_bytes(s, (i - 1) as nat);
        let k = be_nat(s);
        let t = s.take(s.len() - (i - 1));
        assert(t.drop_last() =~= s.take(s.len() - i));
        assert(shifted(k, 2 * i) == shifted(k, (2 * i - 1) as nat) / 16);
        assert(shifted(k, (2 * i - 1) as nat) == shifted(k, (2 * i - 2) as nat) / 16);
        assert(2 * (i - 1) == 2 * i - 2);
    }
}

impl Scalar {
    /// The scalar that 32 big-endian bytes denote.
    pub fn from_be_bytes(bytes: [u8; 32]) -> (k: Scalar)
        ensures
            k@ == be_nat(bytes@),
    {
        Scalar { bytes }
    }

    /// Whether this scalar is zero.
    pub fn is_zero(&self) -> (zero: bool)
        ensures
            zero == (self@ == 0),
    {
        is_zero(self.bytes.as_slice())
    }

    /// Whether this scalar is one.
    pub fn is_one(&self) -> (one: bool)
        ensures
            one == (self@ == 1),
    {
        let head = slice_subrange(self.bytes.as_slice(), 0, 31);
        let last: u8 = self.bytes[31];
        proof {
            assert(head@ =~= self.bytes@.drop_last());
            assert(self@ == be_nat(head@) * 256 + last as nat);
        }
        is_zero(head) && last == 1
    }

    /// The 32 big-endian bytes of this scalar.
    pub fn to_be_bytes(&self) -> (bytes: [u8; 32])
        ensures
            bytes@ == be_bytes(self@, SCALAR_LEN as nat),
    {
        proof {
            lemma_be_bytes_of_be_nat(self.bytes@);
        }
        self.bytes
    }

    /// The four-bit window of this scalar at position `w`.
    pub fn digit(&self, w: usize) -> (d: u8)
        requires
            w < WINDOW_COUNT,
        ensures
            d as nat == window_digit(self@, w as nat),
            d < BUCKET_COUNT,
    {
        let byte: u8 = self.bytes[31 - w / 2];
        proof {
            let i = (w / 2) as nat;
            lemma_shifted_bytes(self.bytes@, i);
            let t = self.bytes@.take(32 - i);
            assert(t.last() == byte);
            assert(byte & 0x0f == byte % 16) by (bit_vector);
            assert(byte >> 4 == byte / 16) by (bit_vector);
            if w % 2 == 1 {
                assert(shifted(self@, w as nat) == shifted(self@, (w - 1) as nat) / 16);
                assert(w - 1 == 2 * i);
            } else {
                assert(w == 2 * i);
            }
        }
        if w % 2 == 0 {
            byte & 0x0f
        } else {
            byte >> 4
        }
    }

    /// This scalar in the form that the curve arithmetic takes.
    pub fn to_wide(&self) -> (wide: [u8; 64])
        ensures
            wide@ == wide_scalar(self@),
    {
        let mut wide = [0u8; 64];
        let mut i: usize = 0;
        while i < 32
            invariant
                i <= 32,
                forall|j: int| 0 <= j < i ==> wide@[j] == self.bytes@[31 - j],
                forall|j: int| i <= j < 64 ==> wide@[j] == 0,
            decreases 32 - i,
        {
            wide[i] = self.bytes[31 - i];
            i += 1;
        }
        proof {
            lemma_be_bytes_of_be_nat(self.bytes@);
            assert(wide@ =~= wide_scalar(self@));
        }
        wide
    }
}

/// Decodes a 32-byte big-endian scalar. Every such value is a scalar.
pub fn decode_scalar(bytes: &[u8]) -> (res: Result<Scalar, ErrorKind>)
    ensures
        match res {
            Ok(k) => decode_scalar_spec(bytes@) == Ok::<nat, ErrorKind>(k@),
            Err(e) => decode_scalar_spec(bytes@) == Err::<nat, ErrorKind>(e),
        },
{
    if bytes.len() == 0 {
        return Err(ErrorKind::EmptyInput);
    }
    if bytes.len() != SCALAR_LEN {
        return Err(ErrorKind::InvalidLength);
    }
    let digits: [u8; 32] = read_array(bytes, 0);
    proof {
        assert(digits@ =~= bytes@);
    }
    Ok(Scalar::from_be_bytes(digits))
}

} // verus!
