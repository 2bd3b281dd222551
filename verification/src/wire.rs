//! Payload serialization with `bincode` (standard configuration).
//!
//! The format has no meta data: a structure is the sequence of its fields, an
//! integer is a variable-length number, and a string of bytes or characters is
//! its length followed by its bytes.

use vstd::bytes::*;
use vstd::prelude::*;
use vstd::utf8::{decode_utf8, encode_utf8, valid_utf8};

verus! {

/// `bincode::error::EncodeError`, which is only carried through.
#[verifier::external_type_specification]
#[verifier::external_body]
pub struct ExEncodeError(bincode::error::EncodeError);

/// `bincode::error::DecodeError`, which is only carried through.
#[verifier::external_type_specification]
#[verifier::external_body]
pub struct ExDecodeError(bincode::error::DecodeError);

/// An unsigned integer: one byte up to 250, else a marker byte and the smallest
/// of two, four or eight little-endian bytes that hold it.
pub open spec fn varint(v: u64) -> Seq<u8> {
    if v <= 250 {
        seq![v as u8]
    } else if v <= 0xffff {
        seq![251u8] + spec_u16_to_le_bytes(v as u16)
    } else if v <= 0xffff_ffff {
        seq![252u8] + spec_u32_to_le_bytes(v as u32)
    } else {
        seq![253u8] + spec_u64_to_le_bytes(v)
    }
}

/// The unsigned integer at the start of `s`, and what follows it.
pub open spec fn take_varint(s: Seq<u8>) -> Option<(u64, Seq<u8>)> {
    if s.len() == 0 {
        None
    } else if s[0] <= 250 {
        Some((s[0] as u64, s.skip(1)))
    } else if s[0] == 251 && s.len() >= 3 {
        Some((spec_u16_from_le_bytes(s.subrange(1, 3)) as u64, s.skip(3)))
    } else if s[0] == 252 && s.len() >= 5 {
        Some((spec_u32_from_le_bytes(s.subrange(1, 5)) as u64, s.skip(5)))
    } else if s[0] == 253 && s.len() >= 9 {
        Some((spec_u64_from_le_bytes(s.subrange(1, 9)), s.skip(9)))
    } else {
        None
    }
}

/// A byte string.
pub open spec fn blob(bytes: Seq<u8>) -> Seq<u8> {
    varint(bytes.len() as u64) + bytes
}

/// The byte string at the start of `s`, and what follows it. The length is read
/// as a `usize`.
pub open spec fn take_blob(s: Seq<u8>) -> Option<(Seq<u8>, Seq<u8>)> {
    match take_varint(s) {
        Some((len, rest)) => if (len as usize) <= rest.len() {
            Some((rest.take((len as usize) as int), rest.skip((len as usize) as int)))
        } else {
            None
        },
        None => None,
    }
}

/// The character string at the start of `s`, and what follows it.
pub open spec fn take_text(s: Seq<u8>) -> Option<(Seq<char>, Seq<u8>)> {
    match take_varint(s) {
        Some((len, rest)) => if len <= rest.len() && valid_utf8(rest.take(len as int)) {
            Some((decode_utf8(rest.take(len as int)), rest.skip(len as int)))
        } else {
            None
        },
        None => None,
    }
}

/// Three integers in turn.
pub open spec fn take_three(s: Seq<u8>) -> Option<((u64, u64, u64), Seq<u8>)> {
    match take_varint(s) {
        Some((a, s1)) => match take_varint(s1) {
            Some((b, s2)) => match take_varint(s2) {
                Some((c, s3)) => Some(((a, b, c), s3)),
                None => None,
            },
            None => None,
        },
        None => None,
    }
}

/// Four integers and two character strings in turn.
pub open spec fn take_six(s: Seq<u8>) -> Option<(u64, u64, u64, u64, Seq<char>, Seq<char>)> {
    match take_three(s) {
        Some(((a, b, c), s3)) => match take_varint(s3) {
            Some((d, s4)) => match take_text(s4) {
                Some((e, s5)) => match take_text(s5) {
                    Some((f, _)) => Some((a, b, c, d, e, f)),
                    None => None,
                },
                None => None,
            },
            None => None,
        },
        None => None,
    }
}

/// `bincode::serde::encode_to_vec` on an integer. The result is always `Ok`.
#[verifier::external_body]
pub(crate) fn encode_u64(value: u64) -> (result: Result<Vec<u8>, bincode::error::EncodeError>)
    ensures
        result is Ok,
        (result->Ok_0)@ == varint(value),
{
    bincode::serde::encode_to_vec(value, bincode::config::standard())
}

/// `bincode::serde::decode_from_slice` for an integer: `Ok` exactly where one
/// stands at the start of `bytes`. What comes behind it is not looked at.
#[verifier::external_body]
pub(crate) fn decode_u64(bytes: &[u8]) -> (result: Result<u64, bincode::error::DecodeError>)
    ensures
        result matches Ok(value) ==> take_varint(bytes@) matches Some((v, _)) && v == value,
        result is Err ==> take_varint(bytes@) is None,
{
    bincode::serde::decode_from_slice(bytes, bincode::config::standard()).map(|(value, _)| value)
}

/// `bincode::serde::encode_to_vec` on an integer and a byte string. The result
/// is always `Ok`.
#[verifier::external_body]
pub(crate) fn encode_u64_blob(value: u64, bytes: &Vec<u8>) -> (result: Result<
    Vec<u8>,
    bincode::error::EncodeError,
>)
    ensures
        result is Ok,
        (result->Ok_0)@ == varint(value) + blob(bytes@),
{
    bincode::serde::encode_to_vec((value, bytes), bincode::config::standard())
}

/// `bincode::serde::decode_from_slice` for an integer and a byte string: `Ok`
/// exactly where both stand at the start of `bytes`.
#[verifier::external_body]
pub(crate) fn decode_u64_blob(bytes: &[u8]) -> (result: Result<
    (u64, Vec<u8>),
    bincode::error::DecodeError,
>)
    ensures
        match take_varint(bytes@) {
            Some((v, rest)) => match take_blob(rest) {
                Some((b, _)) => result matches Ok(pair) && pair.0 == v && pair.1@ == b,
                None => result is Err,
            },
            None => result is Err,
        },
{
    bincode::serde::decode_from_slice(bytes, bincode::config::standard()).map(|(pair, _)| pair)
}

/// `bincode::serde::encode_to_vec` on three integers. The result is always `Ok`.
#[verifier::external_body]
pub(crate) fn encode_three(a: u64, b: u64, c: u64) -> (result: Result<
    Vec<u8>,
    bincode::error::EncodeError,
>)
    ensures
        result is Ok,
        (result->Ok_0)@ == varint(a) + varint(b) + varint(c),
{
    bincode::serde::encode_to_vec((a, b, c), bincode::config::standard())
}

/// `bincode::serde::decode_from_slice` for three integers: `Ok` exactly where
/// they stand at the start of `bytes`.
#[verifier::external_body]
pub(crate) fn decode_three(bytes: &[u8]) -> (result: Result<
    (u64, u64, u64),
    bincode::error::DecodeError,
>)
    ensures
        match take_three(bytes@) {
            Some((triple, _)) => result == Ok::<(u64, u64, u64), bincode::error::DecodeError>(
                triple,
            ),
            None => result is Err,
        },
{
    bincode::serde::decode_from_slice(bytes, bincode::config::standard()).map(|(triple, _)| triple)
}

/// `bincode::serde::encode_to_vec` on four integers and two character strings.
/// The result is always `Ok`.
#[verifier::external_body]
pub(crate) fn encode_six(a: u64, b: u64, c: u64, d: u64, e: &String, f: &String) -> (result: Result<
    Vec<u8>,
    bincode::error::EncodeError,
>)
    ensures
        result is Ok,
        (result->Ok_0)@ == varint(a) + varint(b) + varint(c) + varint(d) + blob(
            encode_utf8(e@),
        ) + blob(encode_utf8(f@)),
{
    bincode::serde::encode_to_vec((a, b, c, d, e, f), bincode::config::standard())
}

/// `bincode::serde::borrow_decode_from_slice` for four integers and two
/// character strings: `Ok` exactly where they stand at the start of `bytes`. The
/// strings are borrowed from `bytes` first, so that a wrong length is an error
/// and not an allocation.
#[verifier::external_body]
pub(crate) fn decode_six(bytes: &[u8]) -> (result: Result<
    (u64, u64, u64, u64, String, String),
    bincode::error::DecodeError,
>)
    ensures
        match take_six(bytes@) {
            Some((a, b, c, d, e, f)) => result matches Ok(six) && six.0 == a && six.1 == b && six.2
                == c && six.3 == d && six.4@ == e && six.5@ == f,
            None => result is Err,
        },
{
    bincode::serde::borrow_decode_from_slice(bytes, bincode::config::standard()).map(
        |(six, _): ((u64, u64, u64, u64, &str, &str), usize)|
            (six.0, six.1, six.2, six.3, six.4.to_owned(), six.5.to_owned()),
    )
}

/// `bincode::error::DecodeError` as text. What the text says stays unsaid.
#[verifier::external_body]
pub(crate) fn decode_error_text(error: &bincode::error::DecodeError) -> String {
    format!("{error}")
}

/// An integer reads back from its own bytes, whatever follows them.
pub proof fn varint_reads_back(v: u64, rest: Seq<u8>)
    ensures
        take_varint(varint(v) + rest) == Some((v, rest)),
        1 <= varint(v).len() <= 9,
{
    lemma_auto_spec_u16_to_from_le_bytes();
    lemma_auto_spec_u32_to_from_le_bytes();
    lemma_auto_spec_u64_to_from_le_bytes();
    let s = varint(v) + rest;
    if v <= 250 {
        assert(s.skip(1) =~= rest);
    } else if v <= 0xffff {
        assert(s.subrange(1, 3) =~= spec_u16_to_le_bytes(v as u16));
        assert(s.skip(3) =~= rest);
    } else if v <= 0xffff_ffff {
        assert(s.subrange(1, 5) =~= spec_u32_to_le_bytes(v as u32));
        assert(s.skip(5) =~= rest);
    } else {
        assert(s.subrange(1, 9) =~= spec_u64_to_le_bytes(v));
        assert(s.skip(9) =~= rest);
    }
}

/// A byte string reads back from its own bytes, whatever follows them.
pub proof fn blob_reads_back(bytes: Seq<u8>, rest: Seq<u8>)
    requires
        bytes.len() <= usize::MAX,
    ensures
        take_blob(blob(bytes) + rest) == Some((bytes, rest)),
{
    varint_reads_back(bytes.len() as u64, bytes + rest);
    assert(blob(bytes) + rest =~= varint(bytes.len() as u64) + (bytes + rest));
    assert((bytes + rest).take(bytes.len() as int) =~= bytes);
    assert((bytes + rest).skip(bytes.len() as int) =~= rest);
}

/// A character string reads back from its own bytes, whatever follows them.
pub proof fn text_reads_back(text: Seq<char>, rest: Seq<u8>)
    requires
        encode_utf8(text).len() <= u64::MAX,
    ensures
        take_text(blob(encode_utf8(text)) + rest) == Some((text, rest)),
{
    broadcast use vstd::utf8::group_utf8_lib;

    let bytes = encode_utf8(text);
    varint_reads_back(bytes.len() as u64, bytes + rest);
    assert(blob(bytes) + rest =~= varint(bytes.len() as u64) + (bytes + rest));
    assert((bytes + rest).take(bytes.len() as int) =~= bytes);
    assert((bytes + rest).skip(bytes.len() as int) =~= rest);
}

/// An integer takes at most nine bytes.
pub proof fn varint_is_short(v: u64)
    ensures
        1 <= varint(v).len() <= 9,
{
    lemma_auto_spec_u16_to_from_le_bytes();
    lemma_auto_spec_u32_to_from_le_bytes();
    lemma_auto_spec_u64_to_from_le_bytes();
}

/// A character takes at most four bytes.
pub proof fn text_is_short(chars: Seq<char>)
    ensures
        encode_utf8(chars).len() <= 4 * chars.len(),
    decreases chars.len(),
{
    if chars.len() > 0 {
        text_is_short(chars.drop_first());
    }
}

} // verus!
