//! Fixed-width integers in network byte order.

use vstd::prelude::*;

verus! {

/// The 16-bit big-endian number at `i`.
pub open spec fn be16(s: Seq<u8>, i: int) -> int {
    s[i] * 0x100 + s[i + 1]
}

/// The 32-bit big-endian number at `i`.
pub open spec fn be32(s: Seq<u8>, i: int) -> int {
    be16(s, i) * 0x1_0000 + be16(s, i + 2)
}

/// The 64-bit big-endian number at `i`.
pub open spec fn be64(s: Seq<u8>, i: int) -> int {
    be32(s, i) * 0x1_0000_0000 + be32(s, i + 4)
}

/// The 128-bit big-endian number at `i`.
pub open spec fn be128(s: Seq<u8>, i: int) -> int {
    be64(s, i) * 0x1_0000_0000_0000_0000 + be64(s, i + 8)
}

/// A number as two bytes, the high one first.
pub open spec fn be16_bytes(n: int) -> Seq<u8> {
    seq![(n / 0x100) as u8, (n % 0x100) as u8]
}

/// A number as four bytes, the highest one first.
pub open spec fn be32_bytes(n: int) -> Seq<u8> {
    seq![
        (n / 0x100_0000) as u8,
        (n / 0x1_0000 % 0x100) as u8,
        (n / 0x100 % 0x100) as u8,
        (n % 0x100) as u8,
    ]
}

/// A number as eight bytes, the highest one first.
pub open spec fn be64_bytes(n: int) -> Seq<u8> {
    be32_bytes(n / 0x1_0000_0000) + be32_bytes(n % 0x1_0000_0000)
}

/// A number as sixteen bytes, the highest one first.
pub open spec fn be128_bytes(n: int) -> Seq<u8> {
    be64_bytes(n / 0x1_0000_0000_0000_0000) + be64_bytes(n % 0x1_0000_0000_0000_0000)
}

/// A number that is written as two bytes is read back wherever they stand.
pub proof fn law_be16_is_read_back(before: Seq<u8>, n: int, after: Seq<u8>)
    requires
        0 <= n < 0x1_0000,
    ensures
        be16(before + be16_bytes(n) + after, before.len() as int) == n,
{
    let s = before + be16_bytes(n) + after;
    let i = before.len() as int;
    assert(s[i] == be16_bytes(n)[0] && s[i + 1] == be16_bytes(n)[1]);
}

/// A number that is written as four bytes is read back wherever they stand.
pub proof fn law_be32_is_read_back(before: Seq<u8>, n: int, after: Seq<u8>)
    requires
        0 <= n < 0x1_0000_0000,
    ensures
        be32(before + be32_bytes(n) + after, before.len() as int) == n,
{
    let s = before + be32_bytes(n) + after;
    let i = before.len() as int;
    let b = be32_bytes(n);
    assert(s[i] == b[0] && s[i + 1] == b[1] && s[i + 2] == b[2] && s[i + 3] == b[3]);
}

/// A number that is written as eight bytes is read back wherever they stand.
pub proof fn law_be64_is_read_back(before: Seq<u8>, n: int, after: Seq<u8>)
    requires
        0 <= n < 0x1_0000_0000_0000_0000,
    ensures
        be64(before + be64_bytes(n) + after, before.len() as int) == n,
{
    let hi = be32_bytes(n / 0x1_0000_0000);
    let lo = be32_bytes(n % 0x1_0000_0000);
    let s = before + be64_bytes(n) + after;
    law_be32_is_read_back(before, n / 0x1_0000_0000, lo + after);
    assert(s =~= before + hi + (lo + after));
    law_be32_is_read_back(before + hi, n % 0x1_0000_0000, after);
    assert(s =~= (before + hi) + lo + after);
}

/// A number that is written as sixteen bytes is read back wherever they stand.
pub proof fn law_be128_is_read_back(before: Seq<u8>, n: int, after: Seq<u8>)
    requires
        0 <= n <= u128::MAX,
    ensures
        be128(before + be128_bytes(n) + after, before.len() as int) == n,
{
    let hi = be64_bytes(n / 0x1_0000_0000_0000_0000);
    let lo = be64_bytes(n % 0x1_0000_0000_0000_0000);
    let s = before + be128_bytes(n) + after;
    law_be64_is_read_back(before, n / 0x1_0000_0000_0000_0000, lo + after);
    assert(s =~= before + hi + (lo + after));
    law_be64_is_read_back(before + hi, n % 0x1_0000_0000_0000_0000, after);
    assert(s =~= (before + hi) + lo + after);
}

pub fn read_be16(data: &[u8], i: usize) -> (n: u16)
    requires
        i + 2 <= data@.len(),
    ensures
        n == be16(data@, i as int),
{
    data[i] as u16 * 0x100 + data[i + 1] as u16
}

pub fn read_be32(data: &[u8], i: usize) -> (n: u32)
    requires
        i + 4 <= data@.len(),
    ensures
        n == be32(data@, i as int),
{
    assert(data@.len() == data.len());
    read_be16(data, i) as u32 * 0x1_0000 + read_be16(data, i + 2) as u32
}

pub fn read_be64(data: &[u8], i: usize) -> (n: u64)
    requires
        i + 8 <= data@.len(),
    ensures
        n == be64(data@, i as int),
{
    assert(data@.len() == data.len());
    read_be32(data, i) as u64 * 0x1_0000_0000 + read_be32(data, i + 4) as u64
}

pub fn read_be128(data: &[u8], i: usize) -> (n: u128)
    requires
        i + 16 <= data@.len(),
    ensures
        n == be128(data@, i as int),
{
    assert(data@.len() == data.len());
    read_be64(data, i) as u128 * 0x1_0000_0000_0000_0000 + read_be64(data, i + 8) as u128
}

/// The bytes of `data` from `start` up to `end`, as a vector of its own.
pub fn copy_range(data: &[u8], start: usize, end: usize) -> (out: Vec<u8>)
    requires
        start <= end <= data@.len(),
    ensures
        out@ == data@.subrange(start as int, end as int),
{
    vstd::slice::slice_to_vec(vstd::slice::slice_subrange(data, start, end))
}

/// The contents of an optional byte string.
pub open spec fn opt_bytes(v: Option<Vec<u8>>) -> Option<Seq<u8>> {
    match v {
        Some(bytes) => Some(bytes@),
        None => None,
    }
}

/// Borrows the contents of an optional byte string.
pub fn as_opt_slice(v: &Option<Vec<u8>>) -> (r: Option<&[u8]>)
    ensures
        match r {
            Some(s) => opt_bytes(*v) == Some(s@),
            None => opt_bytes(*v) is None,
        },
{
    match v {
        Some(bytes) => Some(bytes.as_slice()),
        None => None,
    }
}

} // verus!
