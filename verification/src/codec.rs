//! Values that can be written to bytes and read back.

use vstd::prelude::*;
use vstd::utf8::{decode_utf8, encode_utf8, valid_utf8, encode_utf8_decode_utf8, encode_utf8_valid_utf8};
use crate::lexical::copy_bytes;

verus! {

/// A type whose values have a byte encoding.
///
/// The encoding is a function of the value's view, and decoding undoes it:
/// every encoding decodes to the value it came from.
pub trait Codec: Sized + View {
    /// The bytes that stand for a value with view `v`.
    spec fn encoding(v: Self::V) -> Seq<u8>;

    /// The view of the value that `bytes` stand for, if they stand for one.
    spec fn decoding(bytes: Seq<u8>) -> Option<Self::V>;

    /// Decoding an encoding gives the value back.
    proof fn round_trip(v: Self::V)
        ensures
            Self::decoding(Self::encoding(v)) == Some(v),
    ;

    /// Appends the encoding of `self` to `buf`.
    fn encode(&self, buf: &mut Vec<u8>)
        ensures
            final(buf)@ == old(buf)@ + Self::encoding(self@),
    ;

    /// Reads a value from its encoding; fails on bytes that encode nothing.
    fn decode(buf: &[u8]) -> (r: Result<Self, String>)
        ensures
            match Self::decoding(buf@) {
                Some(v) => r matches Ok(value) && value@ == v,
                None => r is Err,
            },
    ;
}

/// `String::from_utf8` of the standard library: the string that the bytes
/// spell in UTF-8, or nothing if they are not valid UTF-8.
#[verifier::external_body]
fn string_from_utf8(bytes: Vec<u8>) -> (r: Option<String>)
    ensures
        match r {
            Some(s) => valid_utf8(bytes@) && s@ == decode_utf8(bytes@),
            None => !valid_utf8(bytes@),
        },
{
    match String::from_utf8(bytes) {
        Ok(s) => Some(s),
        Err(_) => None,
    }
}

impl Codec for String {
    open spec fn encoding(v: Seq<char>) -> Seq<u8> {
        encode_utf8(v)
    }

    open spec fn decoding(bytes: Seq<u8>) -> Option<Seq<char>> {
        if valid_utf8(bytes) {
            Some(decode_utf8(bytes))
        } else {
            None
        }
    }

    proof fn round_trip(v: Seq<char>) {
        encode_utf8_valid_utf8(v);
        encode_utf8_decode_utf8(v);
    }

    fn encode(&self, buf: &mut Vec<u8>) {
        let mut bytes = self.as_str().as_bytes_vec();
        buf.append(&mut bytes);
    }

    fn decode(buf: &[u8]) -> (r: Result<String, String>) {
        match string_from_utf8(copy_bytes(buf)) {
            Some(s) => Ok(s),
            None => Err(String::from_str("invalid utf-8 sequence")),
        }
    }
}

impl Codec for Vec<u8> {
    open spec fn encoding(v: Seq<u8>) -> Seq<u8> {
        v
    }

    open spec fn decoding(bytes: Seq<u8>) -> Option<Seq<u8>> {
        Some(bytes)
    }

    proof fn round_trip(v: Seq<u8>) {
    }

    fn encode(&self, buf: &mut Vec<u8>) {
        let mut bytes = copy_bytes(self.as_slice());
        buf.append(&mut bytes);
    }

    fn decode(buf: &[u8]) -> (r: Result<Vec<u8>, String>) {
        Ok(copy_bytes(buf))
    }
}

/// Encodes a value into a fresh buffer.
pub fn encode_to_vec<T: Codec>(value: &T) -> (bytes: Vec<u8>)
    ensures
        bytes@ == T::encoding(value@),
{
    let mut bytes: Vec<u8> = Vec::new();
    value.encode(&mut bytes);
    assert(Seq::<u8>::empty() + T::encoding(value@) =~= T::encoding(value@));
    bytes
}

/// Encodes a value and decodes the bytes again: the value comes back.
pub fn decode_encoded<T: Codec>(value: &T) -> (r: Result<T, String>)
    ensures
        r matches Ok(back) && back@ == value@,
{
    proof {
        T::round_trip(value@);
    }
    let bytes = encode_to_vec(value);
    T::decode(bytes.as_slice())
}

} // verus!
