//! Big-endian byte strings read as natural numbers.
use vstd::prelude::*;

verus! {

/// The natural number that a big-endian byte string denotes.
pub open spec fn be_nat(s: Seq<u8>) -> nat
    decreases s.len(),
{
    if s.len() == 0 {
        0
    } else {
        be_nat(s.drop_last()) * 256 + s.last() as nat
    }
}

/// The `n` low-order base-256 digits of `v`, most significant first.
pub open spec fn be_bytes(v: nat, n: nat) -> Seq<u8>
    decreases n,
{
    if n == 0 {
        Seq::empty()
    } else {
        be_bytes(v / 256, (n - 1) as nat).push((v % 256) as u8)
    }
}

/// 256 to the power `n`.
pub open spec fn pow256(n: nat) -> nat
    decreases n,
{
    if n == 0 {
        1
    } else {
        256 * pow256((n - 1) as nat)
    }
}

/// `n` zero bytes.
pub open spec fn zeros(n: nat) -> Seq<u8> {
    Seq::new(n, |i: int| 0u8)
}

/// Every byte of `s` is zero.
pub open spec fn all_zero(s: Seq<u8>) -> bool {
    forall|i: int| 0 <= i < s.len() ==> s[i] == 0
}

/// A number written at a width has that many bytes.
pub proof fn lemma_be_bytes_len(v: nat, n: nat)
    ensures
        be_bytes(v, n).len() == n,
    decreases n,
{
    if n > 0 {
        lemma_be_bytes_len(v / 256, (n - 1) as nat);
    }
}

/// One byte more at the end multiplies by 256 and adds the byte.
pub proof fn lemma_be_nat_push(s: Seq<u8>, b: u8)
    ensures
        be_nat(s.push(b)) == be_nat(s) * 256 + b as nat,
{
    assert(s.push(b).drop_last() =~= s);
}

/// A byte string denotes a number below 256 to the power of its length.
pub proof fn lemma_be_nat_bound(s: Seq<u8>)
    ensures
        be_nat(s) < pow256(s.len()),
    decreases s.len(),
{
    if s.len() > 0 {
        lemma_be_nat_bound(s.drop_last());
    }
}

/// Writing a number out and reading it back gives the number, if it fits.
pub proof fn lemma_be_nat_of_be_bytes(v: nat, n: nat)
    requires
        v < pow256(n),
    ensures
        be_nat(be_bytes(v, n)) == v,
    decreases n,
{
    if n > 0 {
        lemma_be_nat_of_be_bytes(v / 256, (n - 1) as nat);
        lemma_be_nat_push(be_bytes(v / 256, (n - 1) as nat), (v % 256) as u8);
    }
}

/// Reading a byte string and writing the number out at the same width gives
/// the byte string.
pub proof fn lemma_be_bytes_of_be_nat(s: Seq<u8>)
    ensures
        be_bytes(be_nat(s), s.len()) == s,
    decreases s.len(),
{
    if s.len() > 0 {
        let hi = be_nat(s.drop_last());
        let lo = s.last() as nat;
        lemma_be_bytes_of_be_nat(s.drop_last());
        assert((hi * 256 + lo) / 256 == hi && (hi * 256 + lo) % 256 == lo) by {
            lemma_div_mod_256(hi, lo);
        }
        assert(be_bytes(be_nat(s), s.len()) =~= s);
    }
}

/// Dividing by 256 parts the last digit from the digits before it.
pub proof fn lemma_div_mod_256(hi: nat, lo: nat)
    requires
        lo < 256,
    ensures
        (hi * 256 + lo) / 256 == hi,
        (hi * 256 + lo) % 256 == lo,
{
}

/// A byte string denotes zero exactly when all its bytes are zero.
pub proof fn lemma_be_nat_zero(s: Seq<u8>)
    ensures
        be_nat(s) == 0 <==> all_zero(s),
    decreases s.len(),
{
    if s.len() > 0 {
        lemma_be_nat_zero(s.drop_last());
        if be_nat(s) == 0 {
            assert(all_zero(s.drop_last()));
            assert forall|i: int| 0 <= i < s.len() implies s[i] == 0 by {
                if i < s.len() - 1 {
                    assert(s.drop_last()[i] == s[i]);
                }
            }
        }
        if all_zero(s) {
            assert forall|i: int| 0 <= i < s.drop_last().len() implies s.drop_last()[i] == 0 by {
                assert(s.drop_last()[i] == s[i]);
            }
        }
    }
}

/// Reading a concatenation: the left part is shifted by the width of the
/// right part.
pub proof fn lemma_be_nat_concat(a: Seq<u8>, b: Seq<u8>)
    ensures
        be_nat(a + b) == be_nat(a) * pow256(b.len()) + be_nat(b),
    decreases b.len(),
{
    if b.len() == 0 {
        assert(a + b =~= a);
        assert(be_nat(a) * 1 == be_nat(a));
    } else {
        lemma_be_nat_concat(a, b.drop_last());
        assert((a + b).drop_last() =~= a + b.drop_last());
        assert((a + b).last() == b.last());
        let m = pow256((b.len() - 1) as nat);
        let hi = be_nat(a);
        let lo = be_nat(b.drop_last());
        assert(be_nat(a + b) == (hi * m + lo) * 256 + b.last() as nat);
        assert((hi * m + lo) * 256 == hi * (256 * m) + lo * 256) by (nonlinear_arith);
    }
}

/// A number is at least its leading byte, shifted to its place.
pub proof fn lemma_be_nat_leading_byte(s: Seq<u8>)
    requires
        s.len() > 0,
    ensures
        be_nat(s) >= s[0] as nat * pow256((s.len() - 1) as nat),
        be_nat(s) < (s[0] as nat + 1) * pow256((s.len() - 1) as nat),
{
    let head = s.take(1);
    let rest = s.skip(1);
    assert(head + rest =~= s);
    lemma_be_nat_concat(head, rest);
    lemma_be_nat_bound(rest);
    assert(head.drop_last() =~= Seq::<u8>::empty());
    assert(be_nat(head.drop_last()) == 0);
    assert(be_nat(head) == s[0] as nat);
    let m = pow256(rest.len());
    assert((s[0] as nat + 1) * m == s[0] as nat * m + m) by (nonlinear_arith);
}

/// The numeric order of two byte strings follows from the order of all but
/// their last bytes, and of the last bytes.
pub proof fn lemma_be_nat_step(a: Seq<u8>, b: Seq<u8>, x: u8, y: u8)
    ensures
        be_nat(a.push(x)) < be_nat(b.push(y)) <==> be_nat(a) < be_nat(b) || (be_nat(a) == be_nat(b)
            && x < y),
        be_nat(a.push(x)) == be_nat(b.push(y)) <==> be_nat(a) == be_nat(b) && x == y,
{
    lemma_be_nat_push(a, x);
    lemma_be_nat_push(b, y);
}

/// Whether the bytes denote zero.
pub fn is_zero(bytes: &[u8]) -> (zero: bool)
    ensures
        zero == (be_nat(bytes@) == 0),
        zero == all_zero(bytes@),
{
    let mut zero = true;
    let mut i: usize = 0;
    while i < bytes.len()
        invariant
            i <= bytes.len(),
            zero == all_zero(bytes@.take(i as int)),
        decreases bytes.len() - i,
    {
        let ghost before = bytes@.take(i as int);
        let ghost after = bytes@.take(i + 1);
        proof {
            assert(after =~= before.push(bytes@[i as int]));
            if all_zero(after) {
                assert forall|j: int| 0 <= j < before.len() implies before[j] == 0 by {
                    assert(after[j] == before[j]);
                }
                assert(after[i as int] == 0);
            }
        }
        if bytes[i] != 0 {
            zero = false;
        }
        i += 1;
    }
    proof {
        assert(bytes@.take(i as int) =~= bytes@);
        lemma_be_nat_zero(bytes@);
    }
    zero
}

/// Whether `a` denotes a smaller number than `b`, for two byte strings of
/// one length. Looks at every byte, whatever the bytes are.
pub fn less_than(a: &[u8], b: &[u8]) -> (less: bool)
    requires
        a.len() == b.len(),
    ensures
        less == (be_nat(a@) < be_nat(b@)),
{
    let mut less = false;
    let mut equal = true;
    let mut i: usize = 0;
    while i < a.len()
        invariant
            i <= a.len(),
            a.len() == b.len(),
            less == (be_nat(a@.take(i as int)) < be_nat(b@.take(i as int))),
            equal == (be_nat(a@.take(i as int)) == be_nat(b@.take(i as int))),
        decreases a.len() - i,
    {
        proof {
            assert(a@.take(i + 1) =~= a@.take(i as int).push(a@[i as int]));
            assert(b@.take(i + 1) =~= b@.take(i as int).push(b@[i as int]));
            lemma_be_nat_step(a@.take(i as int), b@.take(i as int), a@[i as int], b@[i as int]);
        }
        let x: u8 = a[i];
        let y: u8 = b[i];
        less = less || (equal && x < y);
        equal = equal && x == y;
        i += 1;
    }
    proof {
        assert(a@.take(i as int) =~= a@);
        assert(b@.take(i as int) =~= b@);
    }
    less
}

/// The `N` bytes of `bytes` that start at `start`.
pub fn read_array<const N: usize>(bytes: &[u8], start: usize) -> (out: [u8; N])
    requires
        start + N <= bytes.len(),
    ensures
        out@ == bytes@.subrange(start as int, start + N),
{
    let mut out = [0u8; N];
    let mut i: usize = 0;
    while i < N
        invariant
            i <= N,
            start + N <= bytes.len(),
            out@.take(i as int) == bytes@.subrange(start as int, start + i),
        decreases N - i,
    {
        out[i] = bytes[start + i];
        proof {
            assert(out@.take(i + 1) =~= bytes@.subrange(start as int, start + i + 1));
        }
        i += 1;
    }
    proof {
        assert(out@.take(N as int) =~= out@);
    }
    out
}

/// Writes `src` into `out` from position `at` on.
pub fn write_at<const N: usize>(out: &mut [u8; N], at: usize, src: &[u8])
    requires
        at + src.len() <= N,
    ensures
        final(out)@ == old(out)@.take(at as int) + src@ + old(out)@.skip(at + src.len()),
{
    let mut i: usize = 0;
    while i < src.len()
        invariant
            i <= src.len(),
            at + src.len() <= N,
            out@ == old(out)@.take(at as int) + src@.take(i as int) + old(out)@.skip(at + i),
        decreases src.len() - i,
    {
        out[at + i] = src[i];
        proof {
            assert(out@ =~= old(out)@.take(at as int) + src@.take(i + 1) + old(out)@.skip(
                at + i + 1,
            ));
        }
        i += 1;
    }
    proof {
        assert(src@.take(i as int) =~= src@);
    }
}

} // verus!
