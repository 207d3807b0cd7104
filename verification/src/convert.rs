//! Typed conversion between values and the byte buffers the store holds.
//!
//! [`OutBytes`] turns a value into bytes, [`InBytes`] turns bytes back into
//! a value.  The encoding is deterministic: booleans are one byte, integers
//! are big-endian two's-complement bytes of their exact width, characters
//! and strings are UTF-8, byte sequences pass through unchanged.  The codec
//! is not self-describing: the type requested at decode time must be the
//! type encoded at encode time; nothing in the bytes records the type.
//!
//! The pointer-sized integers travel as eight bytes whatever the
//! platform's pointer width; decoding one whose value does not fit the
//! platform's own width fails rather than truncating.

use vstd::prelude::*;
use vstd::slice::slice_to_vec;
use vstd::string::*;
use vstd::utf8::*;

use crate::big_endian::{
    be_bytes, be_value, be_encode, be_decode, lemma_be_bytes_len, lemma_be_value_bound,
    lemma_pow256_values, lemma_be_round_trip,
};
use crate::error::KvsError;

verus! {

/// A value that can be written out as a byte buffer.
///
/// `encoded` is the byte sequence the value stands for; `out_bytes`
/// produces exactly that sequence.  Encoding never fails for any of the
/// provided implementations, so `out_bytes` always returns `Ok`.
pub trait OutBytes: Sized {
    /// The byte sequence this value encodes to.
    spec fn encoded(&self) -> Seq<u8>;

    /// Encodes the value.
    fn out_bytes(&self) -> (r: Result<Vec<u8>, KvsError>)
        ensures
            r matches Ok(b) && b@ == self.encoded(),
    ;
}

/// A value that can be read back from a byte buffer.
///
/// `accepts` says exactly which buffers decode; `decoded_by` says which
/// value a buffer decodes to.  `in_bytes` fails precisely on the buffers
/// `accepts` rejects, and every failure is a decode error, never an I/O or
/// scope error.
pub trait InBytes: Sized {
    /// Whether this type can be decoded from the byte sequence.
    spec fn accepts(b: Seq<u8>) -> bool;

    /// Whether `v` is the value the byte sequence decodes to.
    spec fn decoded_by(b: Seq<u8>, v: Self) -> bool;

    /// Decodes a value from the bytes.
    fn in_bytes(b: &[u8]) -> (r: Result<Self, KvsError>)
        ensures
            r is Ok <==> Self::accepts(b@),
            r matches Ok(v) ==> Self::decoded_by(b@, v),
            r matches Err(e) ==> e.is_decode_error(),
    ;
}

impl OutBytes for bool {
    open spec fn encoded(&self) -> Seq<u8> {
        seq![if *self { 1u8 } else { 0u8 }]
    }

    fn out_bytes(&self) -> (r: Result<Vec<u8>, KvsError>) {
        let mut b: Vec<u8> = Vec::new();
        b.push(if *self { 1 } else { 0 });
        proof {
            assert(b@ =~= self.encoded());
        }
        Ok(b)
    }
}

impl InBytes for bool {
    open spec fn accepts(b: Seq<u8>) -> bool {
        b.len() == 1 && (b[0] == 0 || b[0] == 1)
    }

    open spec fn decoded_by(b: Seq<u8>, v: bool) -> bool {
        v == (b[0] == 1)
    }

    fn in_bytes(b: &[u8]) -> (r: Result<bool, KvsError>) {
        if b.len() != 1 {
            Err(KvsError::SerializationError(String::from_str("Invalid boolean byte length")))
        } else if b[0] == 0 {
            Ok(false)
        } else if b[0] == 1 {
            Ok(true)
        } else {
            Err(KvsError::SerializationError(String::from_str("Invalid boolean value")))
        }
    }
}

impl OutBytes for u8 {
    open spec fn encoded(&self) -> Seq<u8> {
        be_bytes(*self as nat, 1)
    }

    fn out_bytes(&self) -> (r: Result<Vec<u8>, KvsError>) {
        Ok(be_encode(*self as u128, 1))
    }
}

impl InBytes for u8 {
    open spec fn accepts(b: Seq<u8>) -> bool {
        b.len() == 1
    }

    open spec fn decoded_by(b: Seq<u8>, v: u8) -> bool {
        v as nat == be_value(b)
    }

    fn in_bytes(b: &[u8]) -> (r: Result<u8, KvsError>) {
        if b.len() != 1 {
            Err(KvsError::SerializationError(String::from_str("Invalid u8 byte length")))
        } else {
            proof {
                lemma_be_value_bound(b@);
                lemma_pow256_values();
            }
            Ok(be_decode(b) as u8)
        }
    }
}

impl OutBytes for u16 {
    open spec fn encoded(&self) -> Seq<u8> {
        be_bytes(*self as nat, 2)
    }

    fn out_bytes(&self) -> (r: Result<Vec<u8>, KvsError>) {
        Ok(be_encode(*self as u128, 2))
    }
}

impl InBytes for u16 {
    open spec fn accepts(b: Seq<u8>) -> bool {
        b.len() == 2
    }

    open spec fn decoded_by(b: Seq<u8>, v: u16) -> bool {
        v as nat == be_value(b)
    }

    fn in_bytes(b: &[u8]) -> (r: Result<u16, KvsError>) {
        if b.len() != 2 {
            Err(KvsError::SerializationError(String::from_str("Invalid u16 byte length")))
        } else {
            proof {
                lemma_be_value_bound(b@);
                lemma_pow256_values();
            }
            Ok(be_decode(b) as u16)
        }
    }
}

impl OutBytes for u32 {
    open spec fn encoded(&self) -> Seq<u8> {
        be_bytes(*self as nat, 4)
    }

    fn out_bytes(&self) -> (r: Result<Vec<u8>, KvsError>) {
        Ok(be_encode(*self as u128, 4))
    }
}

impl InBytes for u32 {
    open spec fn accepts(b: Seq<u8>) -> bool {
        b.len() == 4
    }

    open spec fn decoded_by(b: Seq<u8>, v: u32) -> bool {
        v as nat == be_value(b)
    }

    fn in_bytes(b: &[u8]) -> (r: Result<u32, KvsError>) {
        if b.len() != 4 {
            Err(KvsError::SerializationError(String::from_str("Invalid u32 byte length")))
        } else {
            proof {
                lemma_be_value_bound(b@);
                lemma_pow256_values();
            }
            Ok(be_decode(b) as u32)
        }
    }
}

impl OutBytes for u64 {
    open spec fn encoded(&self) -> Seq<u8> {
        be_bytes(*self as nat, 8)
    }

    fn out_bytes(&self) -> (r: Result<Vec<u8>, KvsError>) {
        Ok(be_encode(*self as u128, 8))
    }
}

impl InBytes for u64 {
    open spec fn accepts(b: Seq<u8>) -> bool {
        b.len() == 8
    }

    open spec fn decoded_by(b: Seq<u8>, v: u64) -> bool {
        v as nat == be_value(b)
    }

    fn in_bytes(b: &[u8]) -> (r: Result<u64, KvsError>) {
        if b.len() != 8 {
            Err(KvsError::SerializationError(String::from_str("Invalid u64 byte length")))
        } else {
            proof {
                lemma_be_value_bound(b@);
                lemma_pow256_values();
            }
            Ok(be_decode(b) as u64)
        }
    }
}

impl OutBytes for u128 {
    open spec fn encoded(&self) -> Seq<u8> {
        be_bytes(*self as nat, 16)
    }

    fn out_bytes(&self) -> (r: Result<Vec<u8>, KvsError>) {
        Ok(be_encode(*self, 16))
    }
}

impl InBytes for u128 {
    open spec fn accepts(b: Seq<u8>) -> bool {
        b.len() == 16
    }

    open spec fn decoded_by(b: Seq<u8>, v: u128) -> bool {
        v as nat == be_value(b)
    }

    fn in_bytes(b: &[u8]) -> (r: Result<u128, KvsError>) {
        if b.len() != 16 {
            Err(KvsError::SerializationError(String::from_str("Invalid u128 byte length")))
        } else {
            Ok(be_decode(b))
        }
    }
}

impl OutBytes for usize {
    open spec fn encoded(&self) -> Seq<u8> {
        be_bytes(*self as nat, 8)
    }

    fn out_bytes(&self) -> (r: Result<Vec<u8>, KvsError>) {
        Ok(be_encode(*self as u128, 8))
    }
}

impl InBytes for usize {
    open spec fn accepts(b: Seq<u8>) -> bool {
        b.len() == 8 && be_value(b) <= usize::MAX as nat
    }

    open spec fn decoded_by(b: Seq<u8>, v: usize) -> bool {
        v as nat == be_value(b)
    }

    fn in_bytes(b: &[u8]) -> (r: Result<usize, KvsError>) {
        if b.len() != 8 {
            Err(KvsError::SerializationError(String::from_str("Invalid usize byte length")))
        } else {
            proof {
                lemma_be_value_bound(b@);
                lemma_pow256_values();
            }
            let u = be_decode(b) as u64;
            if u <= usize::MAX as u64 {
                Ok(u as usize)
            } else {
                Err(KvsError::SerializationError(
                    String::from_str("usize value out of range on this platform"),
                ))
            }
        }
    }
}

impl OutBytes for i8 {
    open spec fn encoded(&self) -> Seq<u8> {
        be_bytes((*self as u8) as nat, 1)
    }

    fn out_bytes(&self) -> (r: Result<Vec<u8>, KvsError>) {
        Ok(be_encode((#[verifier::truncate] (*self as u8)) as u128, 1))
    }
}

impl InBytes for i8 {
    open spec fn accepts(b: Seq<u8>) -> bool {
        b.len() == 1
    }

    open spec fn decoded_by(b: Seq<u8>, v: i8) -> bool {
        (v as u8) as nat == be_value(b)
    }

    fn in_bytes(b: &[u8]) -> (r: Result<i8, KvsError>) {
        if b.len() != 1 {
            Err(KvsError::SerializationError(String::from_str("Invalid i8 byte length")))
        } else {
            proof {
                lemma_be_value_bound(b@);
                lemma_pow256_values();
            }
            let x = be_decode(b) as u8;
            let v = #[verifier::truncate] (x as i8);
            proof {
                assert((x as i8) as u8 == x) by (bit_vector);
            }
            Ok(v)
        }
    }
}

impl OutBytes for i16 {
    open spec fn encoded(&self) -> Seq<u8> {
        be_bytes((*self as u16) as nat, 2)
    }

    fn out_bytes(&self) -> (r: Result<Vec<u8>, KvsError>) {
        Ok(be_encode((#[verifier::truncate] (*self as u16)) as u128, 2))
    }
}

impl InBytes for i16 {
    open spec fn accepts(b: Seq<u8>) -> bool {
        b.len() == 2
    }

    open spec fn decoded_by(b: Seq<u8>, v: i16) -> bool {
        (v as u16) as nat == be_value(b)
    }

    fn in_bytes(b: &[u8]) -> (r: Result<i16, KvsError>) {
        if b.len() != 2 {
            Err(KvsError::SerializationError(String::from_str("Invalid i16 byte length")))
        } else {
            proof {
                lemma_be_value_bound(b@);
                lemma_pow256_values();
            }
            let x = be_decode(b) as u16;
            let v = #[verifier::truncate] (x as i16);
            proof {
                assert((x as i16) as u16 == x) by (bit_vector);
            }
            Ok(v)
        }
    }
}

impl OutBytes for i32 {
    open spec fn encoded(&self) -> Seq<u8> {
        be_bytes((*self as u32) as nat, 4)
    }

    fn out_bytes(&self) -> (r: Result<Vec<u8>, KvsError>) {
        Ok(be_encode((#[verifier::truncate] (*self as u32)) as u128, 4))
    }
}

impl InBytes for i32 {
    open spec fn accepts(b: Seq<u8>) -> bool {
        b.len() == 4
    }

    open spec fn decoded_by(b: Seq<u8>, v: i32) -> bool {
        (v as u32) as nat == be_value(b)
    }

    fn in_bytes(b: &[u8]) -> (r: Result<i32, KvsError>) {
        if b.len() != 4 {
            Err(KvsError::SerializationError(String::from_str("Invalid i32 byte length")))
        } else {
            proof {
                lemma_be_value_bound(b@);
                lemma_pow256_values();
            }
            let x = be_decode(b) as u32;
            let v = #[verifier::truncate] (x as i32);
            proof {
                assert((x as i32) as u32 == x) by (bit_vector);
            }
            Ok(v)
        }
    }
}

impl OutBytes for i64 {
    open spec fn encoded(&self) -> Seq<u8> {
        be_bytes((*self as u64) as nat, 8)
    }

    fn out_bytes(&self) -> (r: Result<Vec<u8>, KvsError>) {
        Ok(be_encode((#[verifier::truncate] (*self as u64)) as u128, 8))
    }
}

impl InBytes for i64 {
    open spec fn accepts(b: Seq<u8>) -> bool {
        b.len() == 8
    }

    open spec fn decoded_by(b: Seq<u8>, v: i64) -> bool {
        (v as u64) as nat == be_value(b)
    }

    fn in_bytes(b: &[u8]) -> (r: Result<i64, KvsError>) {
        if b.len() != 8 {
            Err(KvsError::SerializationError(String::from_str("Invalid i64 byte length")))
        } else {
            proof {
                lemma_be_value_bound(b@);
                lemma_pow256_values();
            }
            let x = be_decode(b) as u64;
            let v = #[verifier::truncate] (x as i64);
            proof {
                assert((x as i64) as u64 == x) by (bit_vector);
            }
            Ok(v)
        }
    }
}

impl OutBytes for i128 {
    open spec fn encoded(&self) -> Seq<u8> {
        be_bytes((*self as u128) as nat, 16)
    }

    fn out_bytes(&self) -> (r: Result<Vec<u8>, KvsError>) {
        Ok(be_encode(#[verifier::truncate] (*self as u128), 16))
    }
}

impl InBytes for i128 {
    open spec fn accepts(b: Seq<u8>) -> bool {
        b.len() == 16
    }

    open spec fn decoded_by(b: Seq<u8>, v: i128) -> bool {
        (v as u128) as nat == be_value(b)
    }

    fn in_bytes(b: &[u8]) -> (r: Result<i128, KvsError>) {
        if b.len() != 16 {
            Err(KvsError::SerializationError(String::from_str("Invalid i128 byte length")))
        } else {
            let x = be_decode(b);
            let v = #[verifier::truncate] (x as i128);
            proof {
                assert((x as i128) as u128 == x) by (bit_vector);
            }
            Ok(v)
        }
    }
}

impl OutBytes for isize {
    open spec fn encoded(&self) -> Seq<u8> {
        be_bytes(((*self as i64) as u64) as nat, 8)
    }

    fn out_bytes(&self) -> (r: Result<Vec<u8>, KvsError>) {
        Ok(be_encode((#[verifier::truncate] ((*self as i64) as u64)) as u128, 8))
    }
}

impl InBytes for isize {
    open spec fn accepts(b: Seq<u8>) -> bool {
        b.len() == 8 && isize::MIN as int <= ((be_value(b) as u64) as i64) as int
            <= isize::MAX as int
    }

    open spec fn decoded_by(b: Seq<u8>, v: isize) -> bool {
        ((v as i64) as u64) as nat == be_value(b)
    }

    fn in_bytes(b: &[u8]) -> (r: Result<isize, KvsError>) {
        if b.len() != 8 {
            Err(KvsError::SerializationError(String::from_str("Invalid isize byte length")))
        } else {
            proof {
                lemma_be_value_bound(b@);
                lemma_pow256_values();
            }
            let x = be_decode(b) as u64;
            let s = #[verifier::truncate] (x as i64);
            if isize::MIN as i64 <= s && s <= isize::MAX as i64 {
                let v = s as isize;
                proof {
                    assert((x as i64) as u64 == x) by (bit_vector);
                }
                Ok(v)
            } else {
                Err(KvsError::SerializationError(
                    String::from_str("isize value out of range on this platform"),
                ))
            }
        }
    }
}

/// Relies on `String::from_utf8`: returns the string made of exactly the
/// given bytes when they are valid UTF-8, and nothing otherwise.
#[verifier::external_body]
fn string_from_utf8(b: Vec<u8>) -> (r: Option<String>)
    ensures
        r is Some <==> valid_utf8(b@),
        r matches Some(s) ==> s@ == decode_utf8(b@),
{
    String::from_utf8(b).ok()
}

/// Writes the UTF-8 encoding of one character: one to four bytes.
fn encode_char(c: char) -> (r: Vec<u8>)
    ensures
        r@ == encode_scalar(c as u32),
{
    proof {
        char_is_scalar(c);
    }
    let s = c as u32;
    let mut r: Vec<u8> = Vec::new();
    if s <= 0x7F {
        proof {
            assert(s & 0x7F < 0x100) by (bit_vector);
        }
        r.push((s & 0x7F) as u8);
    } else if s <= 0x7FF {
        proof {
            assert((s >> 6) & 0x1F < 0x100 && s & 0x3F < 0x100) by (bit_vector);
        }
        r.push(0xC0 | ((s >> 6) & 0x1F) as u8);
        r.push(0x80 | (s & 0x3F) as u8);
    } else if s <= 0xFFFF {
        proof {
            assert((s >> 12) & 0x0F < 0x100 && (s >> 6) & 0x3F < 0x100 && s & 0x3F < 0x100)
                by (bit_vector);
        }
        r.push(0xE0 | ((s >> 12) & 0x0F) as u8);
        r.push(0x80 | ((s >> 6) & 0x3F) as u8);
        r.push(0x80 | (s & 0x3F) as u8);
    } else {
        proof {
            assert((s >> 18) & 0x7 < 0x100 && (s >> 12) & 0x3F < 0x100 && (s >> 6) & 0x3F < 0x100
                && s & 0x3F < 0x100) by (bit_vector);
        }
        r.push(0xF0 | ((s >> 18) & 0x7) as u8);
        r.push(0x80 | ((s >> 12) & 0x3F) as u8);
        r.push(0x80 | ((s >> 6) & 0x3F) as u8);
        r.push(0x80 | (s & 0x3F) as u8);
    }
    proof {
        assert(r@ =~= encode_scalar(c as u32));
    }
    r
}

impl OutBytes for char {
    open spec fn encoded(&self) -> Seq<u8> {
        encode_utf8(seq![*self])
    }

    fn out_bytes(&self) -> (r: Result<Vec<u8>, KvsError>) {
        let b = encode_char(*self);
        proof {
            let cs = seq![*self];
            assert(cs.drop_first() =~= Seq::<char>::empty());
            assert(encode_utf8(Seq::<char>::empty()) =~= Seq::<u8>::empty());
            assert(encode_utf8(cs) =~= encode_scalar(cs[0] as u32) + Seq::<u8>::empty());
            assert(b@ =~= encode_utf8(cs));
        }
        Ok(b)
    }
}

impl InBytes for char {
    open spec fn accepts(b: Seq<u8>) -> bool {
        valid_utf8(b) && decode_utf8(b).len() == 1
    }

    open spec fn decoded_by(b: Seq<u8>, v: char) -> bool {
        encode_utf8(seq![v]) == b
    }

    fn in_bytes(b: &[u8]) -> (r: Result<char, KvsError>) {
        match string_from_utf8(slice_to_vec(b)) {
            None => Err(
                KvsError::SerializationError(String::from_str("Invalid UTF-8 for char")),
            ),
            Some(s) => {
                let n = s.as_str().unicode_len();
                if n == 0 {
                    Err(KvsError::SerializationError(String::from_str("Empty string for char")))
                } else if n > 1 {
                    Err(
                        KvsError::SerializationError(
                            String::from_str("Multiple characters in char bytes"),
                        ),
                    )
                } else {
                    let c = s.as_str().get_char(0);
                    proof {
                        decode_utf8_encode_utf8(b@);
                        assert(seq![c] =~= s@);
                    }
                    Ok(c)
                }
            },
        }
    }
}

impl OutBytes for String {
    open spec fn encoded(&self) -> Seq<u8> {
        encode_utf8(self@)
    }

    fn out_bytes(&self) -> (r: Result<Vec<u8>, KvsError>) {
        Ok(self.as_str().as_bytes_vec())
    }
}

impl<'a> OutBytes for &'a str {
    open spec fn encoded(&self) -> Seq<u8> {
        encode_utf8((*self)@)
    }

    fn out_bytes(&self) -> (r: Result<Vec<u8>, KvsError>) {
        Ok((*self).as_bytes_vec())
    }
}

impl InBytes for String {
    open spec fn accepts(b: Seq<u8>) -> bool {
        valid_utf8(b)
    }

    open spec fn decoded_by(b: Seq<u8>, v: String) -> bool {
        encode_utf8(v@) == b
    }

    fn in_bytes(b: &[u8]) -> (r: Result<String, KvsError>) {
        match string_from_utf8(slice_to_vec(b)) {
            None => Err(KvsError::StringDecodeError(String::from_str("Invalid UTF-8 InBytes"))),
            Some(s) => {
                proof {
                    decode_utf8_encode_utf8(b@);
                }
                Ok(s)
            },
        }
    }
}

impl<'a> OutBytes for &'a [u8] {
    open spec fn encoded(&self) -> Seq<u8> {
        (*self)@
    }

    fn out_bytes(&self) -> (r: Result<Vec<u8>, KvsError>) {
        Ok(slice_to_vec(*self))
    }
}

impl OutBytes for Vec<u8> {
    open spec fn encoded(&self) -> Seq<u8> {
        self@
    }

    fn out_bytes(&self) -> (r: Result<Vec<u8>, KvsError>) {
        Ok(slice_to_vec(self.as_slice()))
    }
}

impl<const N: usize> OutBytes for [u8; N] {
    open spec fn encoded(&self) -> Seq<u8> {
        self@
    }

    fn out_bytes(&self) -> (r: Result<Vec<u8>, KvsError>) {
        Ok(slice_to_vec(self.as_slice()))
    }
}

impl<const N: usize> InBytes for [u8; N] {
    open spec fn accepts(b: Seq<u8>) -> bool {
        b.len() == N
    }

    open spec fn decoded_by(b: Seq<u8>, v: [u8; N]) -> bool {
        v@ == b
    }

    fn in_bytes(b: &[u8]) -> (r: Result<[u8; N], KvsError>) {
        if b.len() != N {
            Err(KvsError::SerializationError(String::from_str("Invalid byte array length")))
        } else {
            let mut arr: [u8; N] = vstd::array::array_fill_for_copy_types(0u8);
            let mut i: usize = 0;
            while i < N
                invariant
                    0 <= i <= N,
                    b@.len() == N,
                    forall|j: int| 0 <= j < i ==> arr@[j] == b@[j],
                decreases N - i,
            {
                arr[i] = b[i];
                i = i + 1;
            }
            proof {
                assert(arr@ =~= b@);
            }
            Ok(arr)
        }
    }
}

impl InBytes for Vec<u8> {
    open spec fn accepts(b: Seq<u8>) -> bool {
        true
    }

    open spec fn decoded_by(b: Seq<u8>, v: Vec<u8>) -> bool {
        v@ == b
    }

    fn in_bytes(b: &[u8]) -> (r: Result<Vec<u8>, KvsError>) {
        Ok(slice_to_vec(b))
    }
}

// Round-trip laws: decoding the encoding of a value always succeeds and
// returns exactly the value that was encoded.  One law per provided type;
// `decoded_by(v.encoded(), w)` is what `in_bytes` ensures of its result `w`
// on the buffer `out_bytes` made of `v`.

/// Any decode of an encoded boolean returns the boolean itself.
pub proof fn lemma_round_trip_bool(v: bool, w: bool)
    requires
        <bool as InBytes>::decoded_by(v.encoded(), w),
    ensures
        <bool as InBytes>::accepts(v.encoded()),
        w == v,
{
}

/// Any decode of an encoded `u8` returns the value itself.
pub proof fn lemma_round_trip_u8(v: u8, w: u8)
    requires
        <u8 as InBytes>::decoded_by(v.encoded(), w),
    ensures
        <u8 as InBytes>::accepts(v.encoded()),
        w == v,
{
    lemma_be_bytes_len(v as nat, 1);
    lemma_pow256_values();
    lemma_be_round_trip(v as nat, 1);
}

/// Any decode of an encoded `u16` returns the value itself.
pub proof fn lemma_round_trip_u16(v: u16, w: u16)
    requires
        <u16 as InBytes>::decoded_by(v.encoded(), w),
    ensures
        <u16 as InBytes>::accepts(v.encoded()),
        w == v,
{
    lemma_be_bytes_len(v as nat, 2);
    lemma_pow256_values();
    lemma_be_round_trip(v as nat, 2);
}

/// Any decode of an encoded `u32` returns the value itself.
pub proof fn lemma_round_trip_u32(v: u32, w: u32)
    requires
        <u32 as InBytes>::decoded_by(v.encoded(), w),
    ensures
        <u32 as InBytes>::accepts(v.encoded()),
        w == v,
{
    lemma_be_bytes_len(v as nat, 4);
    lemma_pow256_values();
    lemma_be_round_trip(v as nat, 4);
}

/// Any decode of an encoded `u64` returns the value itself.
pub proof fn lemma_round_trip_u64(v: u64, w: u64)
    requires
        <u64 as InBytes>::decoded_by(v.encoded(), w),
    ensures
        <u64 as InBytes>::accepts(v.encoded()),
        w == v,
{
    lemma_be_bytes_len(v as nat, 8);
    lemma_pow256_values();
    lemma_be_round_trip(v as nat, 8);
}

/// Any decode of an encoded `u128` returns the value itself.
pub proof fn lemma_round_trip_u128(v: u128, w: u128)
    requires
        <u128 as InBytes>::decoded_by(v.encoded(), w),
    ensures
        <u128 as InBytes>::accepts(v.encoded()),
        w == v,
{
    lemma_be_bytes_len(v as nat, 16);
    lemma_pow256_values();
    lemma_be_round_trip(v as nat, 16);
}

/// Any decode of an encoded `usize` returns the value itself.
pub proof fn lemma_round_trip_usize(v: usize, w: usize)
    requires
        <usize as InBytes>::decoded_by(v.encoded(), w),
    ensures
        <usize as InBytes>::accepts(v.encoded()),
        w == v,
{
    lemma_be_bytes_len(v as nat, 8);
    lemma_pow256_values();
    lemma_be_round_trip(v as nat, 8);
}

/// Any decode of an encoded `i8` returns the value itself.
pub proof fn lemma_round_trip_i8(v: i8, w: i8)
    requires
        <i8 as InBytes>::decoded_by(v.encoded(), w),
    ensures
        <i8 as InBytes>::accepts(v.encoded()),
        w == v,
{
    lemma_be_bytes_len((v as u8) as nat, 1);
    lemma_pow256_values();
    lemma_be_round_trip((v as u8) as nat, 1);
    assert(v as u8 == w as u8 ==> v == w) by (bit_vector);
}

/// Any decode of an encoded `i16` returns the value itself.
pub proof fn lemma_round_trip_i16(v: i16, w: i16)
    requires
        <i16 as InBytes>::decoded_by(v.encoded(), w),
    ensures
        <i16 as InBytes>::accepts(v.encoded()),
        w == v,
{
    lemma_be_bytes_len((v as u16) as nat, 2);
    lemma_pow256_values();
    lemma_be_round_trip((v as u16) as nat, 2);
    assert(v as u16 == w as u16 ==> v == w) by (bit_vector);
}

/// Any decode of an encoded `i32` returns the value itself.
pub proof fn lemma_round_trip_i32(v: i32, w: i32)
    requires
        <i32 as InBytes>::decoded_by(v.encoded(), w),
    ensures
        <i32 as InBytes>::accepts(v.encoded()),
        w == v,
{
    lemma_be_bytes_len((v as u32) as nat, 4);
    lemma_pow256_values();
    lemma_be_round_trip((v as u32) as nat, 4);
    assert(v as u32 == w as u32 ==> v == w) by (bit_vector);
}

/// Any decode of an encoded `i64` returns the value itself.
pub proof fn lemma_round_trip_i64(v: i64, w: i64)
    requires
        <i64 as InBytes>::decoded_by(v.encoded(), w),
    ensures
        <i64 as InBytes>::accepts(v.encoded()),
        w == v,
{
    lemma_be_bytes_len((v as u64) as nat, 8);
    lemma_pow256_values();
    lemma_be_round_trip((v as u64) as nat, 8);
    assert(v as u64 == w as u64 ==> v == w) by (bit_vector);
}

/// Any decode of an encoded `i128` returns the value itself.
pub proof fn lemma_round_trip_i128(v: i128, w: i128)
    requires
        <i128 as InBytes>::decoded_by(v.encoded(), w),
    ensures
        <i128 as InBytes>::accepts(v.encoded()),
        w == v,
{
    lemma_be_bytes_len((v as u128) as nat, 16);
    lemma_pow256_values();
    lemma_be_round_trip((v as u128) as nat, 16);
    assert(v as u128 == w as u128 ==> v == w) by (bit_vector);
}

/// Any decode of an encoded `isize` returns the value itself.
pub proof fn lemma_round_trip_isize(v: isize, w: isize)
    requires
        <isize as InBytes>::decoded_by(v.encoded(), w),
    ensures
        <isize as InBytes>::accepts(v.encoded()),
        w == v,
{
    lemma_be_bytes_len(((v as i64) as u64) as nat, 8);
    lemma_pow256_values();
    lemma_be_round_trip(((v as i64) as u64) as nat, 8);
    let vv = v as i64;
    let ww = w as i64;
    assert(vv as u64 == ww as u64 ==> vv == ww) by (bit_vector);
    assert((vv as u64) as i64 == vv) by (bit_vector);
}

/// Any decode of an encoded character returns the character itself.
pub proof fn lemma_round_trip_char(v: char, w: char)
    requires
        <char as InBytes>::decoded_by(v.encoded(), w),
    ensures
        <char as InBytes>::accepts(v.encoded()),
        w == v,
{
    encode_utf8_valid_utf8(seq![v]);
    encode_utf8_decode_utf8(seq![v]);
    encode_utf8_decode_utf8(seq![w]);
    assert(seq![w][0] == seq![v][0]);
}

/// Any decode of an encoded string returns a string of exactly the same
/// characters.
pub proof fn lemma_round_trip_string(v: String, w: String)
    requires
        <String as InBytes>::decoded_by(v.encoded(), w),
    ensures
        <String as InBytes>::accepts(v.encoded()),
        w@ == v@,
{
    encode_utf8_valid_utf8(v@);
    encode_utf8_decode_utf8(v@);
    encode_utf8_decode_utf8(w@);
}

/// Any decode of an encoded string slice returns a string of exactly the
/// same characters.
pub proof fn lemma_round_trip_str(v: &str, w: String)
    requires
        <String as InBytes>::decoded_by(v.encoded(), w),
    ensures
        <String as InBytes>::accepts(v.encoded()),
        w@ == v@,
{
    encode_utf8_valid_utf8(v@);
    encode_utf8_decode_utf8(v@);
    encode_utf8_decode_utf8(w@);
}

/// Any decode of an encoded byte sequence returns the identical bytes:
/// the codec passes raw bytes through unchanged in both directions.
pub proof fn lemma_round_trip_bytes(v: &[u8], w: Vec<u8>)
    requires
        <Vec<u8> as InBytes>::decoded_by(v.encoded(), w),
    ensures
        <Vec<u8> as InBytes>::accepts(v.encoded()),
        w@ == v@,
{
}

/// Any decode of an encoded fixed-length byte array returns the identical
/// bytes.
pub proof fn lemma_round_trip_byte_array<const N: usize>(v: [u8; N], w: [u8; N])
    requires
        <[u8; N] as InBytes>::decoded_by(v.encoded(), w),
    ensures
        <[u8; N] as InBytes>::accepts(v.encoded()),
        w@ == v@,
{
}

/// Decoding a fixed-length byte array from a buffer whose length differs
/// from that exact length fails.
pub proof fn lemma_wrong_length_rejected_byte_array<const N: usize>(b: Seq<u8>)
    requires
        b.len() != N,
    ensures
        !<[u8; N] as InBytes>::accepts(b),
{
}

/// Decoding a fixed-width type from a buffer whose length differs from the
/// type's exact byte width fails, for every width the codec uses: no
/// zero-padding and no truncation ever happens.
pub proof fn lemma_wrong_length_rejected(b: Seq<u8>)
    ensures
        b.len() != 1 ==> !<bool as InBytes>::accepts(b) && !<u8 as InBytes>::accepts(b)
            && !<i8 as InBytes>::accepts(b),
        b.len() != 2 ==> !<u16 as InBytes>::accepts(b) && !<i16 as InBytes>::accepts(b),
        b.len() != 4 ==> !<u32 as InBytes>::accepts(b) && !<i32 as InBytes>::accepts(b),
        b.len() != 8 ==> !<u64 as InBytes>::accepts(b) && !<i64 as InBytes>::accepts(b)
            && !<usize as InBytes>::accepts(b) && !<isize as InBytes>::accepts(b),
        b.len() != 16 ==> !<u128 as InBytes>::accepts(b) && !<i128 as InBytes>::accepts(b),
{
}

} // verus!
