//! Tagged fields: the layer between variable-length integers and messages.
//!
//! A field is a key, `number * 8 + wire type`, followed by a value whose
//! shape the wire type gives: a variable-length integer (0), eight bytes (1),
//! a length and that many bytes (2), or four bytes (5).
//!
//! Of a key only the low 32 bits count, as in the `protobuf` crate's reader.
//! In two places this reader is stricter than that crate's:
//!
//! - Wire types 3 and 4, the start and end of a group, are rejected
//!   wherever they stand. The crate skips a group under a field number that
//!   the message does not know.
//! - A length is taken whole, as a 64-bit number, and the field is rejected
//!   when fewer bytes follow. The crate keeps only the low 32 bits of the
//!   length of a text or of an unknown field.
//!
//! Neither occurs in what an encoder of these messages writes.

use crate::varint::{
    lemma_parse_varint, lemma_scan_varint_len, parse_varint, read_raw_varint64, varint,
    write_raw_varint64,
};
use vstd::prelude::*;
use vstd::slice::slice_subrange;
use vstd::utf8::{decode_utf8, encode_utf8, valid_utf8};

verus! {

/// The value of a field, by wire type.
pub enum WireValue {
    Varint(u64),
    Fixed64,
    Bytes(Seq<u8>),
    Fixed32,
}

/// A field read off the front of some bytes: its number, its value and the
/// number of bytes it took.
pub struct FieldView {
    pub number: nat,
    pub value: WireValue,
    pub len: nat,
}

/// The part of a key that counts: its low 32 bits.
pub open spec fn low_key(key: u64) -> nat {
    (key % 0x1_0000_0000) as nat
}

/// Reads one field off the front of `bytes`.
#[verifier::opaque]
pub open spec fn parse_field(bytes: Seq<u8>) -> Option<FieldView> {
    match parse_varint(bytes) {
        None => None,
        Some((key, n)) => {
            let number = low_key(key) / 8;
            let wire = low_key(key) % 8;
            let rest = bytes.skip(n as int);
            if number == 0 {
                None
            } else if wire == 0 {
                match parse_varint(rest) {
                    Some((v, m)) => Some(
                        FieldView { number, value: WireValue::Varint(v), len: n + m },
                    ),
                    None => None,
                }
            } else if wire == 1 {
                if rest.len() >= 8 {
                    Some(FieldView { number, value: WireValue::Fixed64, len: n + 8 })
                } else {
                    None
                }
            } else if wire == 2 {
                match parse_varint(rest) {
                    Some((size, m)) => if rest.len() - m >= size {
                        Some(
                            FieldView {
                                number,
                                value: WireValue::Bytes(rest.subrange(m as int, m + size)),
                                len: n + m + size as nat,
                            },
                        )
                    } else {
                        None
                    },
                    None => None,
                }
            } else if wire == 5 {
                if rest.len() >= 4 {
                    Some(FieldView { number, value: WireValue::Fixed32, len: n + 4 })
                } else {
                    None
                }
            } else {
                None
            }
        },
    }
}

/// A field takes at least two bytes and no more than there are.
pub proof fn lemma_parse_field_len(bytes: Seq<u8>)
    ensures
        parse_field(bytes) matches Some(f) ==> 2 <= f.len <= bytes.len(),
{
    reveal(parse_field);
    lemma_scan_varint_len(bytes, 10);
    if let Some((key, n)) = parse_varint(bytes) {
        lemma_scan_varint_len(bytes.skip(n as int), 10);
    }
}

/// The key of field `number` with wire type `wire`.
pub open spec fn tag(number: nat, wire: nat) -> Seq<u8> {
    varint(number * 8 + wire)
}

/// A field holding a variable-length integer.
pub open spec fn varint_field(number: nat, v: u64) -> Seq<u8> {
    tag(number, 0) + varint(v as nat)
}

/// A field holding `payload` behind its length.
pub open spec fn bytes_field(number: nat, payload: Seq<u8>) -> Seq<u8> {
    tag(number, 2) + varint(payload.len()) + payload
}

/// The 64-bit pattern of a signed 32-bit number, sign extended.
pub open spec fn sign_extended(v: int) -> u64 {
    if v < 0 {
        (v + 0x1_0000_0000_0000_0000) as u64
    } else {
        v as u64
    }
}

/// The signed 32-bit number in the low 32 bits of `v`.
pub open spec fn low_int32(v: u64) -> int {
    let low = v % 0x1_0000_0000;
    if low < 0x8000_0000 {
        low as int
    } else {
        low - 0x1_0000_0000
    }
}

/// A signed 32-bit field; the value zero is left out.
pub open spec fn int32_field(number: nat, v: int) -> Seq<u8> {
    if v == 0 {
        Seq::empty()
    } else {
        varint_field(number, sign_extended(v))
    }
}

/// A text field in UTF-8; the empty text is left out.
pub open spec fn string_field(number: nat, text: Seq<char>) -> Seq<u8> {
    if text.len() == 0 {
        Seq::empty()
    } else {
        bytes_field(number, encode_utf8(text))
    }
}

/// What `varint_field` writes, `parse_field` reads back.
pub proof fn lemma_parse_varint_field(number: nat, v: u64, rest: Seq<u8>)
    requires
        1 <= number <= 0x1FFF_FFFF,
    ensures
        parse_field(varint_field(number, v) + rest) == Some(
            FieldView {
                number,
                value: WireValue::Varint(v),
                len: varint_field(number, v).len(),
            },
        ),
{
    reveal(parse_field);
    let key = (number * 8) as u64;
    let bytes = varint_field(number, v) + rest;
    assert(bytes =~= varint(key as nat) + (varint(v as nat) + rest));
    lemma_parse_varint(key, varint(v as nat) + rest);
    let n = varint(key as nat).len();
    assert(bytes.skip(n as int) =~= varint(v as nat) + rest);
    lemma_parse_varint(v, rest);
}

/// What `bytes_field` writes, `parse_field` reads back.
pub proof fn lemma_parse_bytes_field(number: nat, payload: Seq<u8>, rest: Seq<u8>)
    requires
        1 <= number <= 0x1FFF_FFFF,
        payload.len() <= u64::MAX,
    ensures
        parse_field(bytes_field(number, payload) + rest) == Some(
            FieldView {
                number,
                value: WireValue::Bytes(payload),
                len: bytes_field(number, payload).len(),
            },
        ),
{
    reveal(parse_field);
    let key = (number * 8 + 2) as u64;
    let size = payload.len() as u64;
    let bytes = bytes_field(number, payload) + rest;
    assert(bytes =~= varint(key as nat) + (varint(size as nat) + payload + rest));
    lemma_parse_varint(key, varint(size as nat) + payload + rest);
    let n = varint(key as nat).len();
    let after = bytes.skip(n as int);
    assert(after =~= varint(size as nat) + (payload + rest));
    lemma_parse_varint(size, payload + rest);
    let m = varint(size as nat).len();
    assert(after.subrange(m as int, m + size) =~= payload);
}

/// The low 32 bits of a sign-extended number give the number back.
pub proof fn lemma_low_int32(v: int)
    requires
        -0x8000_0000 <= v < 0x8000_0000,
    ensures
        low_int32(sign_extended(v)) == v,
{
    if v < 0 {
        let w = v + 0x1_0000_0000_0000_0000;
        assert(w == 0xFFFF_FFFF * 0x1_0000_0000 + (v + 0x1_0000_0000));
        assert(w % 0x1_0000_0000 == v + 0x1_0000_0000) by (nonlinear_arith)
            requires
                w == 0xFFFF_FFFF * 0x1_0000_0000 + (v + 0x1_0000_0000),
                0 <= v + 0x1_0000_0000 < 0x1_0000_0000,
        ;
    }
}

/// Where the value of a field lies in the bytes it was read from.
#[derive(Debug, Clone, Copy, PartialEq, Eq)]
pub enum FieldValue {
    Varint(u64),
    Fixed64,
    /// The payload is `bytes[start..end]`.
    Bytes { start: usize, end: usize },
    Fixed32,
}

/// A field read at some position: its number, its value and the position of
/// the byte after it.
#[derive(Debug, Clone, Copy, PartialEq, Eq)]
pub struct Field {
    pub number: u64,
    pub value: FieldValue,
    pub next: usize,
}

impl Field {
    /// True when this field, read from `bytes` at `at`, is `view`.
    pub open spec fn describes(&self, view: FieldView, bytes: Seq<u8>, at: int) -> bool {
        &&& self.number == view.number
        &&& self.next == at + view.len
        &&& self.next <= bytes.len()
        &&& match self.value {
            FieldValue::Varint(v) => view.value == WireValue::Varint(v),
            FieldValue::Fixed64 => view.value == WireValue::Fixed64,
            FieldValue::Fixed32 => view.value == WireValue::Fixed32,
            FieldValue::Bytes { start, end } => at <= start <= end <= self.next && view.value
                == WireValue::Bytes(bytes.subrange(start as int, end as int)),
        }
    }
}

/// Reads the field that starts at `at`. Gives `None` exactly when `at` is
/// beyond the end or `parse_field` rejects the bytes from `at` on.
pub fn read_field(bytes: &[u8], at: usize) -> (r: Option<Field>)
    ensures
        match r {
            Some(f) => at <= bytes@.len() && (parse_field(bytes@.skip(at as int)) matches Some(
                view,
            ) && f.describes(view, bytes@, at as int)),
            None => at > bytes@.len() || parse_field(bytes@.skip(at as int)) is None,
        },
{
    proof {
        reveal(parse_field);
    }
    let total = bytes.len();
    if at > total {
        return None;
    }
    let input = slice_subrange(bytes, at, total);
    assert(input@ =~= bytes@.skip(at as int));
    proof {
        lemma_scan_varint_len(input@, 10);
    }
    let (key, n) = match read_raw_varint64(input) {
        Some(pair) => pair,
        None => {
            return None;
        },
    };
    let key = key % 0x1_0000_0000;
    let number = key / 8;
    let wire = key % 8;
    let n = n as usize;
    let left = total - at - n;
    let rest = slice_subrange(bytes, at + n, total);
    assert(rest@ =~= input@.skip(n as int));
    proof {
        lemma_scan_varint_len(rest@, 10);
    }
    if number == 0 {
        None
    } else if wire == 0 {
        match read_raw_varint64(rest) {
            Some((v, m)) => Some(
                Field { number, value: FieldValue::Varint(v), next: at + n + m as usize },
            ),
            None => None,
        }
    } else if wire == 1 {
        if left >= 8 {
            Some(Field { number, value: FieldValue::Fixed64, next: at + n + 8 })
        } else {
            None
        }
    } else if wire == 2 {
        match read_raw_varint64(rest) {
            Some((size, m)) => {
                let m = m as usize;
                if (left - m) as u64 >= size {
                    let start = at + n + m;
                    let end = start + size as usize;
                    assert(rest@.subrange(m as int, m + size) =~= bytes@.subrange(
                        start as int,
                        end as int,
                    ));
                    Some(Field { number, value: FieldValue::Bytes { start, end }, next: end })
                } else {
                    None
                }
            },
            None => None,
        }
    } else if wire == 5 {
        if left >= 4 {
            Some(Field { number, value: FieldValue::Fixed32, next: at + n + 4 })
        } else {
            None
        }
    } else {
        None
    }
}

/// The signed 32-bit number in the low 32 bits of `v`.
pub fn int32_of(v: u64) -> (r: i32)
    ensures
        r == low_int32(v),
{
    let low: u64 = v % 0x1_0000_0000;
    if low < 0x8000_0000 {
        low as i32
    } else {
        (low as i64 - 0x1_0000_0000) as i32
    }
}

/// Appends a field holding a variable-length integer.
pub fn put_varint_field(out: &mut Vec<u8>, number: u32, v: u64)
    ensures
        final(out)@ == old(out)@ + varint_field(number as nat, v),
{
    write_raw_varint64(out, number as u64 * 8);
    write_raw_varint64(out, v);
    assert(out@ =~= old(out)@ + varint_field(number as nat, v));
}

/// Appends a signed 32-bit field, unless the value is zero.
pub fn put_int32(out: &mut Vec<u8>, number: u32, v: i32)
    ensures
        final(out)@ == old(out)@ + int32_field(number as nat, v as int),
{
    if v != 0 {
        let pattern: u64 = if v < 0 {
            (v as i128 + 0x1_0000_0000_0000_0000) as u64
        } else {
            v as u64
        };
        put_varint_field(out, number, pattern);
    } else {
        assert(out@ =~= old(out)@ + int32_field(number as nat, v as int));
    }
}

/// Appends a field holding `payload` behind its length.
pub fn put_bytes(out: &mut Vec<u8>, number: u32, payload: &[u8])
    ensures
        final(out)@ == old(out)@ + bytes_field(number as nat, payload@),
{
    write_raw_varint64(out, number as u64 * 8 + 2);
    write_raw_varint64(out, payload.len() as u64);
    out.extend_from_slice(payload);
    assert(out@ =~= old(out)@ + bytes_field(number as nat, payload@));
}

/// Appends a text field, unless the text is empty.
pub fn put_string(out: &mut Vec<u8>, number: u32, text: &str)
    ensures
        final(out)@ == old(out)@ + string_field(number as nat, text@),
        encode_utf8(text@).len() <= usize::MAX,
{
    let payload = text.as_bytes();
    assert(payload@.len() == payload.len());
    if !text.is_empty() {
        put_bytes(out, number, payload);
    } else {
        assert(out@ =~= old(out)@ + string_field(number as nat, text@));
    }
}

/// The text that `bytes` spell in UTF-8, if they are valid UTF-8.
pub open spec fn text_of(bytes: Seq<u8>) -> Option<Seq<char>> {
    if valid_utf8(bytes) {
        Some(decode_utf8(bytes))
    } else {
        None
    }
}

/// Calls `String::from_utf8` of the standard library, which checks that
/// `bytes` are valid UTF-8 and, if so, returns them as a `String`.
#[verifier::external_body]
pub(crate) fn string_from_utf8(bytes: Vec<u8>) -> (r: Option<String>)
    ensures
        match r {
            Some(text) => text_of(bytes@) == Some(text@),
            None => text_of(bytes@) is None,
        },
{
    String::from_utf8(bytes).ok()
}

} // verus!
