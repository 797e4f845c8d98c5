//! Inputs made of a whole number of records of one width.
use crate::error::ErrorKind;
use vstd::arithmetic::div_mod::{lemma_mod_sub_multiples_vanish, lemma_small_mod};
use vstd::prelude::*;

verus! {

/// What decoding the records of an input gives: the decoded records in
/// order, or the error of the first record that fails to decode.
pub open spec fn records_spec<T>(
    input: Seq<u8>,
    width: nat,
    decode: spec_fn(Seq<u8>) -> Result<T, ErrorKind>,
) -> Result<Seq<T>, ErrorKind>
    decreases input.len(),
{
    if width == 0 || input.len() < width {
        Ok(Seq::empty())
    } else {
        match records_spec(input.take(input.len() - width), width, decode) {
            Err(e) => Err(e),
            Ok(items) => match decode(input.skip(input.len() - width)) {
                Err(e) => Err(e),
                Ok(item) => Ok(items.push(item)),
            },
        }
    }
}

/// What the length of an input made of records says: an empty input and a
/// length that is no whole number of records are errors.
pub open spec fn length_error(len: nat, width: nat) -> Option<ErrorKind> {
    if len == 0 {
        Some(ErrorKind::EmptyInput)
    } else if width == 0 || len % width != 0 {
        Some(ErrorKind::InvalidLength)
    } else {
        None
    }
}

/// Where records remain, a whole record remains, and what follows it is a
/// whole number of records again.
pub proof fn lemma_next_record(len: int, offset: int, width: int)
    requires
        0 <= offset < len,
        0 < width,
        (len - offset) % width == 0,
    ensures
        offset + width <= len,
        (len - (offset + width)) % width == 0,
{
    if len - offset < width {
        lemma_small_mod((len - offset) as nat, width as nat);
    }
    lemma_mod_sub_multiples_vanish(len - offset, width);
}

/// Decoding one record more extends what the records before it gave.
pub proof fn lemma_records_step<T>(
    input: Seq<u8>,
    width: nat,
    decode: spec_fn(Seq<u8>) -> Result<T, ErrorKind>,
    offset: int,
)
    requires
        0 < width,
        0 <= offset,
        offset + width <= input.len(),
    ensures
        records_spec(input.take(offset + width), width, decode) == (match records_spec(
            input.take(offset),
            width,
            decode,
        ) {
            Err(e) => Err(e),
            Ok(items) => match decode(input.subrange(offset, offset + width)) {
                Err(e) => Err(e),
                Ok(item) => Ok(items.push(item)),
            },
        }),
{
    let s = input.take(offset + width);
    assert(s.take(s.len() - width) =~= input.take(offset));
    assert(s.skip(s.len() - width) =~= input.subrange(offset, offset + width));
}

/// An error among the first records is the error of the whole input.
pub proof fn lemma_records_prefix_error<T>(
    input: Seq<u8>,
    width: nat,
    decode: spec_fn(Seq<u8>) -> Result<T, ErrorKind>,
    offset: int,
)
    requires
        0 < width,
        0 <= offset <= input.len(),
        (input.len() - offset) % (width as int) == 0,
        records_spec(input.take(offset), width, decode) is Err,
    ensures
        records_spec(input, width, decode) == records_spec(input.take(offset), width, decode),
    decreases input.len(),
{
    if offset == input.len() {
        assert(input.take(offset) =~= input);
    } else {
        lemma_next_record(input.len() as int, offset, width as int);
        let shorter = input.take(input.len() - width);
        assert(shorter.take(offset) =~= input.take(offset));
        lemma_mod_sub_multiples_vanish(input.len() - offset, width as int);
        lemma_records_prefix_error(shorter, width, decode, offset);
    }
}

/// What holds of every record that decodes holds of every item that the
/// records of an input give.
pub proof fn lemma_records_all<T>(
    input: Seq<u8>,
    width: nat,
    decode: spec_fn(Seq<u8>) -> Result<T, ErrorKind>,
    holds: spec_fn(T) -> bool,
)
    requires
        forall|record: Seq<u8>|
            record.len() == width && (#[trigger] decode(record)) is Ok ==> holds(
                decode(record)->Ok_0,
            ),
    ensures
        match records_spec(input, width, decode) {
            Ok(items) => forall|i: int| 0 <= i < items.len() ==> holds(#[trigger] items[i]),
            Err(_) => true,
        },
    decreases input.len(),
{
    if width != 0 && input.len() >= width {
        lemma_records_all(input.take(input.len() - width), width, decode, holds);
        let last = input.skip(input.len() - width);
        assert(last.len() == width);
    }
}

} // verus!
