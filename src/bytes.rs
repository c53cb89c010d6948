//! Fixed-width integers read out of byte buffers.
use vstd::prelude::*;

verus! {

/// The little-endian unsigned 16-bit value stored at `i`.
pub open spec fn le_u16(b: Seq<u8>, i: int) -> int {
    b[i] as int + b[i + 1] as int * 0x100
}

/// The little-endian unsigned 32-bit value stored at `i`.
pub open spec fn le_u32(b: Seq<u8>, i: int) -> int {
    le_u16(b, i) + le_u16(b, i + 2) * 0x10000
}

/// The little-endian two's-complement 16-bit value stored at `i`.
pub open spec fn le_i16(b: Seq<u8>, i: int) -> int {
    if le_u16(b, i) < 0x8000 {
        le_u16(b, i)
    } else {
        le_u16(b, i) - 0x10000
    }
}

/// The little-endian two's-complement 32-bit value stored at `i`.
pub open spec fn le_i32(b: Seq<u8>, i: int) -> int {
    if le_u32(b, i) < 0x8000_0000 {
        le_u32(b, i)
    } else {
        le_u32(b, i) - 0x1_0000_0000
    }
}

/// The big-endian unsigned 16-bit value stored at `i`.
pub open spec fn be_u16(b: Seq<u8>, i: int) -> int {
    b[i] as int * 0x100 + b[i + 1] as int
}

pub fn read_u16_le(b: &[u8], i: usize) -> (r: u16)
    requires
        i + 2 <= b.len(),
    ensures
        r == le_u16(b@, i as int),
{
    b[i] as u16 + b[i + 1] as u16 * 0x100
}

pub fn read_u32_le(b: &[u8], i: usize) -> (r: u32)
    requires
        i + 4 <= b.len(),
    ensures
        r == le_u32(b@, i as int),
{
    let lo = read_u16_le(b, i);
    let hi = read_u16_le(b, i + 2);
    lo as u32 + hi as u32 * 0x10000
}

pub fn read_i16_le(b: &[u8], i: usize) -> (r: i16)
    requires
        i + 2 <= b.len(),
    ensures
        r == le_i16(b@, i as int),
{
    let u = read_u16_le(b, i);
    if u < 0x8000 {
        u as i16
    } else {
        ((u - 0x8000) as i16) - 0x4000 - 0x4000
    }
}

pub fn read_i32_le(b: &[u8], i: usize) -> (r: i32)
    requires
        i + 4 <= b.len(),
    ensures
        r == le_i32(b@, i as int),
{
    let u = read_u32_le(b, i);
    if u < 0x8000_0000 {
        u as i32
    } else {
        ((u - 0x8000_0000) as i32) - 0x4000_0000 - 0x4000_0000
    }
}

pub fn read_u16_be(b: &[u8], i: usize) -> (r: u16)
    requires
        i + 2 <= b.len(),
    ensures
        r == be_u16(b@, i as int),
{
    b[i] as u16 * 0x100 + b[i + 1] as u16
}

/// A copy of the `n` bytes that start at `i`.
pub fn copy_bytes(b: &[u8], i: usize, n: usize) -> (r: Vec<u8>)
    requires
        i + n <= b.len(),
    ensures
        r@ == b@.subrange(i as int, i + n),
{
    let mut r: Vec<u8> = Vec::with_capacity(n);
    let mut k: usize = 0;
    while k < n
        invariant
            k <= n,
            i + n <= b.len(),
            r@ == b@.subrange(i as int, i + k),
        decreases n - k,
    {
        r.push(b[i + k]);
        k += 1;
        assert(r@ =~= b@.subrange(i as int, i + k));
    }
    r
}

/// The `n` little-endian 16-bit values that start at `i`.
pub open spec fn u16_seq(b: Seq<u8>, i: int, n: int) -> Seq<u16> {
    Seq::new(n as nat, |k: int| le_u16(b, i + 2 * k) as u16)
}

/// The `n` little-endian 16-bit values that start at `i`.
pub fn read_u16_seq(b: &[u8], i: usize, n: usize) -> (r: Vec<u16>)
    requires
        i + 2 * n <= b.len(),
    ensures
        r@ == u16_seq(b@, i as int, n as int),
{
    let mut r: Vec<u16> = Vec::with_capacity(n);
    let mut k: usize = 0;
    while k < n
        invariant
            k <= n,
            i + 2 * n <= b.len(),
            r@ == u16_seq(b@, i as int, k as int),
        decreases n - k,
    {
        r.push(read_u16_le(b, i + 2 * k));
        k += 1;
        assert(r@ =~= u16_seq(b@, i as int, k as int));
    }
    r
}

} // verus!
