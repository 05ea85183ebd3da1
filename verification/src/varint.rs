//! Base-128 variable-length integers, the building block of the workload
//! encoding. Each byte carries seven bits, least significant group first; the
//! high bit of a byte says that another byte follows.

use vstd::prelude::*;

verus! {

/// The bytes of `v` as a variable-length integer.
pub open spec fn varint(v: nat) -> Seq<u8>
    decreases v,
{
    if v < 128 {
        seq![v as u8]
    } else {
        seq![(128 + v % 128) as u8] + varint(v / 128)
    }
}

/// Reads a variable-length integer off the front of `bytes`, looking at no
/// more than `limit` bytes. Gives the value of all the seven-bit groups read
/// and the number of bytes they took, or `None` when `bytes` ends or `limit`
/// is reached before a byte without the high bit.
pub open spec fn scan_varint(bytes: Seq<u8>, limit: nat) -> Option<(nat, nat)>
    decreases limit,
{
    if limit == 0 || bytes.len() == 0 {
        None
    } else if bytes[0] < 128 {
        Some((bytes[0] as nat, 1nat))
    } else {
        match scan_varint(bytes.skip(1), (limit - 1) as nat) {
            Some((v, n)) => Some(((bytes[0] - 128) as nat + 128 * v, n + 1)),
            None => None,
        }
    }
}

/// Reads a 64-bit variable-length integer off the front of `bytes`: at most
/// ten bytes, of which the bits beyond the 64th are dropped. Gives the value
/// and the number of bytes read.
pub open spec fn parse_varint(bytes: Seq<u8>) -> Option<(u64, nat)> {
    match scan_varint(bytes, 10) {
        Some((v, n)) => Some(((v % 0x1_0000_0000_0000_0000) as u64, n)),
        None => None,
    }
}

/// 128 to the power `k`.
pub open spec fn pow128(k: nat) -> nat
    decreases k,
{
    if k == 0 {
        1
    } else {
        128 * pow128((k - 1) as nat)
    }
}

/// A value below `128^k` takes at most `k` bytes, and at least one.
pub proof fn lemma_varint_len(v: nat, k: nat)
    requires
        k >= 1,
        v < pow128(k),
    ensures
        1 <= varint(v).len() <= k,
    decreases v,
{
    if v >= 128 {
        reveal_with_fuel(pow128, 2);
        assert(k >= 2);
        lemma_varint_len(v / 128, (k - 1) as nat);
    }
}

/// A 64-bit value takes between one and ten bytes.
pub proof fn lemma_varint_len_u64(v: u64)
    ensures
        1 <= varint(v as nat).len() <= 10,
{
    reveal_with_fuel(pow128, 11);
    lemma_varint_len(v as nat, 10);
}

/// What `varint` writes, `scan_varint` reads back, whatever follows it.
pub proof fn lemma_scan_varint(v: nat, rest: Seq<u8>, limit: nat)
    requires
        varint(v).len() <= limit,
    ensures
        scan_varint(varint(v) + rest, limit) == Some((v, varint(v).len())),
    decreases v,
{
    let bytes = varint(v) + rest;
    if v < 128 {
        assert(bytes[0] == v as u8);
    } else {
        let tail = varint(v / 128);
        assert(bytes[0] == (128 + v % 128) as u8);
        assert(bytes.skip(1) =~= tail + rest);
        lemma_scan_varint(v / 128, rest, (limit - 1) as nat);
    }
}

/// What `varint` writes for a 64-bit value, `parse_varint` reads back,
/// whatever follows it.
pub proof fn lemma_parse_varint(v: u64, rest: Seq<u8>)
    ensures
        parse_varint(varint(v as nat) + rest) == Some((v, varint(v as nat).len())),
{
    lemma_varint_len_u64(v);
    lemma_scan_varint(v as nat, rest, 10);
}

/// A successful scan reads at least one byte and no more than there are.
pub proof fn lemma_scan_varint_len(bytes: Seq<u8>, limit: nat)
    ensures
        scan_varint(bytes, limit) matches Some((_, n)) ==> 1 <= n <= bytes.len() && n <= limit,
    decreases limit,
{
    if limit == 0 || bytes.len() == 0 || bytes[0] < 128 {
    } else {
        lemma_scan_varint_len(bytes.skip(1), (limit - 1) as nat);
    }
}

/// Calls `protobuf::CodedOutputStream::vec` on `out`, then
/// `write_raw_varint64` and `flush`. The contract states what the crate's
/// encoder appends: the seven-bit groups of `value`, least significant
/// first, every byte but the last with its high bit set.
#[verifier::external_body]
pub(crate) fn write_raw_varint64(out: &mut Vec<u8>, value: u64)
    ensures
        final(out)@ == old(out)@ + varint(value as nat),
{
    let mut stream = protobuf::CodedOutputStream::vec(out);
    stream.write_raw_varint64(value).unwrap();
    stream.flush().unwrap();
}

/// Calls `protobuf::CodedInputStream::from_bytes` on `bytes`, then
/// `read_raw_varint64` and `pos`. The contract states what the crate's
/// decoder returns: the value of up to ten bytes, bits beyond the 64th
/// dropped, with the number of bytes read; `None` where it reports an error.
#[verifier::external_body]
pub(crate) fn read_raw_varint64(bytes: &[u8]) -> (r: Option<(u64, u64)>)
    ensures
        match r {
            Some((v, n)) => parse_varint(bytes@) == Some((v, n as nat)),
            None => parse_varint(bytes@) is None,
        },
{
    let mut stream = protobuf::CodedInputStream::from_bytes(bytes);
    let value = stream.read_raw_varint64().ok()?;
    Some((value, stream.pos()))
}

} // verus!
