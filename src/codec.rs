//! Fixed-width big-endian integer encoding, the building block of every
//! payload layout.
use vstd::prelude::*;

verus! {

/// The four bytes of `v`, most significant first.
pub open spec fn u32_be(v: u32) -> Seq<u8> {
    seq![(v >> 24u32) as u8, (v >> 16u32) as u8, (v >> 8u32) as u8, v as u8]
}

/// The `u32` whose big-endian bytes are the first four of `s`.
pub open spec fn u32_from_be(s: Seq<u8>) -> u32 {
    u32_of_bytes(s[0], s[1], s[2], s[3])
}

pub open spec fn u32_of_bytes(b0: u8, b1: u8, b2: u8, b3: u8) -> u32 {
    ((b0 as u32) << 24u32) | ((b1 as u32) << 16u32) | ((b2 as u32) << 8u32) | (b3 as u32)
}

/// The four bytes of `v` in two's complement, most significant first.
pub open spec fn i32_be(v: i32) -> Seq<u8> {
    u32_be(v as u32)
}

/// The `i32` whose big-endian bytes are the first four of `s`.
pub open spec fn i32_from_be(s: Seq<u8>) -> i32 {
    u32_from_be(s) as i32
}

/// The eight bytes of `v`, most significant first.
pub open spec fn u64_be(v: u64) -> Seq<u8> {
    u32_be((v >> 32u64) as u32) + u32_be(v as u32)
}

/// The `u64` whose big-endian bytes are the first eight of `s`.
pub open spec fn u64_from_be(s: Seq<u8>) -> u64 {
    u64_of_halves(u32_from_be(s), u32_from_be(s.subrange(4, 8)))
}

pub open spec fn u64_of_halves(hi: u32, lo: u32) -> u64 {
    ((hi as u64) << 32u64) | (lo as u64)
}

/// Reading back the bytes of a `u32` gives the `u32`.
pub proof fn lemma_u32_round_trip(v: u32)
    ensures
        u32_be(v).len() == 4,
        u32_from_be(u32_be(v)) == v,
{
    let b0 = (v >> 24u32) as u8;
    let b1 = (v >> 16u32) as u8;
    let b2 = (v >> 8u32) as u8;
    let b3 = v as u8;
    assert(u32_of_bytes(b0, b1, b2, b3) == v) by (bit_vector)
        requires
            b0 == (v >> 24u32) as u8,
            b1 == (v >> 16u32) as u8,
            b2 == (v >> 8u32) as u8,
            b3 == v as u8,
    ;
}

/// Reading back the bytes of an `i32` gives the `i32`.
pub proof fn lemma_i32_round_trip(v: i32)
    ensures
        i32_be(v).len() == 4,
        i32_from_be(i32_be(v)) == v,
{
    lemma_u32_round_trip(v as u32);
    assert((v as u32) as i32 == v) by (bit_vector);
}

/// Reading back the bytes of a `u64` gives the `u64`.
pub proof fn lemma_u64_round_trip(v: u64)
    ensures
        u64_be(v).len() == 8,
        u64_from_be(u64_be(v)) == v,
{
    let hi = (v >> 32u64) as u32;
    let lo = v as u32;
    lemma_u32_round_trip(hi);
    lemma_u32_round_trip(lo);
    let s = u64_be(v);
    assert(s.subrange(0, 4) =~= u32_be(hi));
    assert(s.subrange(4, 8) =~= u32_be(lo));
    assert(u32_from_be(s) == u32_from_be(s.subrange(0, 4)));
    assert(u64_of_halves(hi, lo) == v) by (bit_vector)
        requires
            hi == (v >> 32u64) as u32,
            lo == v as u32,
    ;
}

/// Appends the four big-endian bytes of `v`.
pub fn push_u32_be(out: &mut Vec<u8>, v: u32)
    ensures
        final(out)@ == old(out)@ + u32_be(v),
{
    out.push((v >> 24u32) as u8);
    out.push((v >> 16u32) as u8);
    out.push((v >> 8u32) as u8);
    out.push(v as u8);
    assert(final(out)@ =~= old(out)@ + u32_be(v));
}

/// Appends the four big-endian bytes of `v` in two's complement.
pub fn push_i32_be(out: &mut Vec<u8>, v: i32)
    ensures
        final(out)@ == old(out)@ + i32_be(v),
{
    push_u32_be(out, v as u32);
}

/// Appends the eight big-endian bytes of `v`.
pub fn push_u64_be(out: &mut Vec<u8>, v: u64)
    ensures
        final(out)@ == old(out)@ + u64_be(v),
{
    let ghost start = out@;
    push_u32_be(out, (v >> 32u64) as u32);
    push_u32_be(out, v as u32);
    assert(out@ =~= start + u64_be(v));
}

/// The `u32` stored big-endian at `at`.
pub fn read_u32_be(data: &Vec<u8>, at: usize) -> (r: u32)
    requires
        at + 4 <= data@.len(),
    ensures
        r == u32_from_be(data@.subrange(at as int, at + 4)),
{
    let len = data.len();
    assert(at + 4 <= len);
    u32_of_bytes_exec(data[at], data[at + 1], data[at + 2], data[at + 3])
}

fn u32_of_bytes_exec(b0: u8, b1: u8, b2: u8, b3: u8) -> (r: u32)
    ensures
        r == u32_of_bytes(b0, b1, b2, b3),
{
    ((b0 as u32) << 24u32) | ((b1 as u32) << 16u32) | ((b2 as u32) << 8u32) | (b3 as u32)
}

/// The `i32` stored big-endian, in two's complement, at `at`.
pub fn read_i32_be(data: &Vec<u8>, at: usize) -> (r: i32)
    requires
        at + 4 <= data@.len(),
    ensures
        r == i32_from_be(data@.subrange(at as int, at + 4)),
{
    read_u32_be(data, at) as i32
}

/// The `u64` stored big-endian at `at`.
pub fn read_u64_be(data: &Vec<u8>, at: usize) -> (r: u64)
    requires
        at + 8 <= data@.len(),
    ensures
        r == u64_from_be(data@.subrange(at as int, at + 8)),
{
    let len = data.len();
    assert(at + 8 <= len);
    let hi = read_u32_be(data, at);
    let lo = read_u32_be(data, at + 4);
    proof {
        let s = data@.subrange(at as int, at + 8);
        assert(s.subrange(0, 4) =~= data@.subrange(at as int, at + 4));
        assert(s.subrange(4, 8) =~= data@.subrange(at + 4, at + 8));
        assert(u32_from_be(s) == u32_from_be(s.subrange(0, 4)));
    }
    ((hi as u64) << 32u64) | (lo as u64)
}

} // verus!
