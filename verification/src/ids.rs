//! Identifiers of batches and requests, made by the `uuid` crate and held
//! here as their 16 bytes.

use vstd::prelude::*;

verus! {

/// The 16 bytes of a version-7 identifier: the version nibble (the high
/// half of byte 6) is 7, and the variant bits (the top two of byte 8) are
/// `10`.
pub open spec fn is_v7_id(id: Seq<u8>) -> bool {
    &&& id.len() == 16
    &&& id[6] & 0xf0u8 == 0x70u8
    &&& id[8] & 0xc0u8 == 0x80u8
}

/// A fresh time-ordered identifier: `uuid::Uuid::now_v7`, as its 16 bytes.
/// The crate always writes the version and the variant bits; the other
/// bits come from the clock and from random bits and are not stated.
#[verifier::external_body]
pub(crate) fn new_batch_id() -> (id: Vec<u8>)
    ensures
        is_v7_id(id@),
{
    uuid::Uuid::now_v7().as_bytes().to_vec()
}

/// The lower-case hexadecimal digit of a value below 16.
pub open spec fn hex_digit(n: int) -> char {
    if n < 10 {
        (n + 48) as char
    } else {
        (n + 87) as char
    }
}

/// Two lower-case hexadecimal digits per byte, the high half first.
pub open spec fn hex_bytes(bytes: Seq<u8>) -> Seq<char>
    decreases bytes.len(),
{
    if bytes.len() == 0 {
        Seq::empty()
    } else {
        seq![hex_digit(bytes[0] as int / 16), hex_digit(bytes[0] as int % 16)] + hex_bytes(
            bytes.drop_first(),
        )
    }
}

/// The hyphenated form of an identifier of 16 bytes: its bytes in groups of
/// 4, 2, 2, 2 and 6, each group in hexadecimal, joined by `-`.
pub open spec fn uuid_hyphenated(bytes: Seq<u8>) -> Seq<char> {
    hex_bytes(bytes.subrange(0, 4)) + seq!['-'] + hex_bytes(bytes.subrange(4, 6)) + seq!['-']
        + hex_bytes(bytes.subrange(6, 8)) + seq!['-'] + hex_bytes(bytes.subrange(8, 10))
        + seq!['-'] + hex_bytes(bytes.subrange(10, 16))
}

/// `uuid::Uuid::from_slice` on the 16 bytes, then `to_string`. The claim is
/// that the text is the hyphenated lower-case form, which is what the
/// crate's `Display` writes (`LowerHex` of `as_hyphenated`).
#[verifier::external_body]
pub(crate) fn uuid_to_string(bytes: &Vec<u8>) -> (s: String)
    requires
        bytes@.len() == 16,
    ensures
        s@ == uuid_hyphenated(bytes@),
{
    uuid::Uuid::from_slice(bytes.as_slice()).unwrap().to_string()
}

} // verus!
