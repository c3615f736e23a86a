//! Little-endian integers on byte sequences.

use byteorder::{ByteOrder, LittleEndian};
use vstd::arithmetic::div_mod::lemma_fundamental_div_mod_converse;
use vstd::prelude::*;
use vstd::slice::slice_subrange;

verus! {

/// The 16-bit value whose little-endian bytes are `b0, b1`.
pub open spec fn le16(b0: u8, b1: u8) -> u16 {
    (b0 as int + 256 * (b1 as int)) as u16
}

/// The 32-bit value whose little-endian bytes are `b0, b1, b2, b3`.
pub open spec fn le32(b0: u8, b1: u8, b2: u8, b3: u8) -> u32 {
    (b0 as int + 256 * (b1 as int) + 65536 * (b2 as int) + 16777216 * (b3 as int)) as u32
}

/// The unsigned 16-bit value stored at byte `at` of `s`.
pub open spec fn u16_at(s: Seq<u8>, at: int) -> u16 {
    le16(s[at], s[at + 1])
}

/// The unsigned 32-bit value stored at byte `at` of `s`.
pub open spec fn u32_at(s: Seq<u8>, at: int) -> u32 {
    le32(s[at], s[at + 1], s[at + 2], s[at + 3])
}

/// The two's complement reading of a 16-bit pattern.
pub open spec fn as_signed16(v: u16) -> i16 {
    if v < 32768 {
        v as i16
    } else {
        (v as int - 65536) as i16
    }
}

/// The signed 16-bit value stored at byte `at` of `s`.
pub open spec fn i16_at(s: Seq<u8>, at: int) -> i16 {
    as_signed16(u16_at(s, at))
}

/// The little-endian bytes of `v`.
pub open spec fn u16_bytes(v: u16) -> Seq<u8> {
    seq![(v as int % 256) as u8, (v as int / 256) as u8]
}

/// The little-endian bytes of `v`.
pub open spec fn u32_bytes(v: u32) -> Seq<u8> {
    seq![
        (v as int % 256) as u8,
        (v as int / 256 % 256) as u8,
        (v as int / 65536 % 256) as u8,
        (v as int / 16777216) as u8,
    ]
}

/// `byteorder::LittleEndian::read_u16`: the first two bytes of `buf`, the
/// first one the less significant.
#[verifier::external_body]
fn le_read_u16(buf: &[u8]) -> (v: u16)
    requires
        buf@.len() >= 2,
    ensures
        v == le16(buf@[0], buf@[1]),
{
    LittleEndian::read_u16(buf)
}

/// `byteorder::LittleEndian::read_u32`: the first four bytes of `buf`, the
/// first one the least significant.
#[verifier::external_body]
fn le_read_u32(buf: &[u8]) -> (v: u32)
    requires
        buf@.len() >= 4,
    ensures
        v == le32(buf@[0], buf@[1], buf@[2], buf@[3]),
{
    LittleEndian::read_u32(buf)
}

/// `byteorder::LittleEndian::read_i16`: the first two bytes of `buf` as a
/// two's complement number.
#[verifier::external_body]
fn le_read_i16(buf: &[u8]) -> (v: i16)
    requires
        buf@.len() >= 2,
    ensures
        v == as_signed16(le16(buf@[0], buf@[1])),
{
    LittleEndian::read_i16(buf)
}

/// `byteorder::LittleEndian::write_u16` into a buffer of two bytes.
#[verifier::external_body]
fn le_write_u16(v: u16) -> (out: [u8; 2])
    ensures
        out@ == u16_bytes(v),
{
    let mut out = [0u8; 2];
    LittleEndian::write_u16(&mut out, v);
    out
}

/// `byteorder::LittleEndian::write_u32` into a buffer of four bytes.
#[verifier::external_body]
fn le_write_u32(v: u32) -> (out: [u8; 4])
    ensures
        out@ == u32_bytes(v),
{
    let mut out = [0u8; 4];
    LittleEndian::write_u32(&mut out, v);
    out
}

/// Reads the unsigned 16-bit value at byte `at`.
pub fn get_u16(data: &[u8], at: usize) -> (v: u16)
    requires
        at + 2 <= data.len(),
    ensures
        v == u16_at(data@, at as int),
{
    le_read_u16(slice_subrange(data, at, at + 2))
}

/// Reads the unsigned 32-bit value at byte `at`.
pub fn get_u32(data: &[u8], at: usize) -> (v: u32)
    requires
        at + 4 <= data.len(),
    ensures
        v == u32_at(data@, at as int),
{
    le_read_u32(slice_subrange(data, at, at + 4))
}

/// Reads the signed 16-bit value at byte `at`.
pub fn get_i16(data: &[u8], at: usize) -> (v: i16)
    requires
        at + 2 <= data.len(),
    ensures
        v == i16_at(data@, at as int),
{
    le_read_i16(slice_subrange(data, at, at + 2))
}

/// Appends the two bytes of `v`.
pub fn put_u16(out: &mut Vec<u8>, v: u16)
    ensures
        final(out)@ == old(out)@ + u16_bytes(v),
{
    let b: [u8; 2] = le_write_u16(v);
    out.push(b[0]);
    out.push(b[1]);
    assert(out@ =~= old(out)@ + u16_bytes(v));
}

/// Appends the four bytes of `v`.
pub fn put_u32(out: &mut Vec<u8>, v: u32)
    ensures
        final(out)@ == old(out)@ + u32_bytes(v),
{
    let b: [u8; 4] = le_write_u32(v);
    out.push(b[0]);
    out.push(b[1]);
    out.push(b[2]);
    out.push(b[3]);
    assert(out@ =~= old(out)@ + u32_bytes(v));
}

/// Writing a 16-bit value and reading it back gives the value.
pub proof fn lemma_u16_bytes_read(v: u16)
    ensures
        u16_bytes(v).len() == 2,
        u16_at(u16_bytes(v), 0) == v,
{
}

/// Reading two bytes and writing the value back gives the bytes.
pub proof fn lemma_u16_read_bytes(b0: u8, b1: u8)
    ensures
        u16_bytes(le16(b0, b1)) =~= seq![b0, b1],
{
}

/// Writing a 32-bit value and reading it back gives the value.
pub proof fn lemma_u32_bytes_read(v: u32)
    ensures
        u32_bytes(v).len() == 4,
        u32_at(u32_bytes(v), 0) == v,
{
}

/// Reading four bytes and writing the value back gives the bytes.
pub proof fn lemma_u32_read_bytes(b0: u8, b1: u8, b2: u8, b3: u8)
    ensures
        u32_bytes(le32(b0, b1, b2, b3)) =~= seq![b0, b1, b2, b3],
{
    let v: int = le32(b0, b1, b2, b3) as int;
    let hi: int = b1 as int + 256 * (b2 as int) + 65536 * (b3 as int);
    lemma_fundamental_div_mod_converse(v, 256, hi, b0 as int);
    lemma_fundamental_div_mod_converse(hi, 256, b2 as int + 256 * (b3 as int), b1 as int);
    lemma_fundamental_div_mod_converse(
        v,
        65536,
        b2 as int + 256 * (b3 as int),
        b0 as int + 256 * (b1 as int),
    );
    lemma_fundamental_div_mod_converse(b2 as int + 256 * (b3 as int), 256, b3 as int, b2 as int);
    lemma_fundamental_div_mod_converse(
        v,
        16777216,
        b3 as int,
        b0 as int + 256 * (b1 as int) + 65536 * (b2 as int),
    );
}

/// The `n` unsigned 16-bit values stored from byte `at` of `s` on.
pub open spec fn u16s_at(s: Seq<u8>, at: int, n: nat) -> Seq<u16> {
    Seq::new(n, |i: int| u16_at(s, at + 2 * i))
}

/// The bytes of a run of 16-bit values, each little endian.
pub open spec fn u16s_bytes(v: Seq<u16>) -> Seq<u8>
    decreases v.len(),
{
    if v.len() == 0 {
        Seq::<u8>::empty()
    } else {
        u16s_bytes(v.drop_last()) + u16_bytes(v.last())
    }
}

/// A run of `n` values takes `2 * n` bytes, and value `i` stands at byte
/// `2 * i`.
pub proof fn lemma_u16s_bytes(v: Seq<u16>)
    ensures
        u16s_bytes(v).len() == 2 * v.len(),
        forall|i: int| 0 <= i < v.len() ==> u16_at(u16s_bytes(v), 2 * i) == #[trigger] v[i],
    decreases v.len(),
{
    if v.len() > 0 {
        lemma_u16s_bytes(v.drop_last());
        let head = u16s_bytes(v.drop_last());
        assert forall|i: int| 0 <= i < v.len() implies u16_at(u16s_bytes(v), 2 * i)
            == #[trigger] v[i] by {
            if i < v.len() - 1 {
                assert(v.drop_last()[i] == v[i]);
                assert(u16_at(head, 2 * i) == v[i]);
            } else {
                lemma_u16_bytes_read(v.last());
            }
        }
    }
}

/// Reads `n` unsigned 16-bit values from byte `at` on.
pub fn get_u16s(data: &[u8], at: usize, n: usize) -> (v: Vec<u16>)
    requires
        at + 2 * n <= data.len(),
    ensures
        v@ == u16s_at(data@, at as int, n as nat),
{
    let mut v: Vec<u16> = Vec::new();
    let mut i: usize = 0;
    while i < n
        invariant
            i <= n,
            at + 2 * n <= data.len(),
            v@ == u16s_at(data@, at as int, i as nat),
        decreases n - i,
    {
        v.push(get_u16(data, at + 2 * i));
        i += 1;
        assert(v@ =~= u16s_at(data@, at as int, i as nat));
    }
    v
}

/// Appends the bytes of each value in turn.
pub fn put_u16s(out: &mut Vec<u8>, v: &[u16])
    ensures
        final(out)@ == old(out)@ + u16s_bytes(v@),
{
    let n: usize = v.len();
    let mut i: usize = 0;
    assert(u16s_bytes(v@.take(0)) =~= Seq::<u8>::empty());
    assert(out@ =~= old(out)@ + u16s_bytes(v@.take(0)));
    while i < n
        invariant
            i <= n,
            n == v@.len(),
            out@ == old(out)@ + u16s_bytes(v@.take(i as int)),
        decreases n - i,
    {
        put_u16(out, v[i]);
        proof {
            let next = v@.take(i + 1);
            assert(next.drop_last() =~= v@.take(i as int));
            assert(next.last() == v@[i as int]);
            assert(out@ =~= old(out)@ + u16s_bytes(next));
        }
        i += 1;
    }
    assert(v@.take(n as int) =~= v@);
}

/// Appends a copy of `src`.
pub fn put_bytes(out: &mut Vec<u8>, src: &[u8])
    ensures
        final(out)@ == old(out)@ + src@,
{
    let n: usize = src.len();
    let mut i: usize = 0;
    while i < n
        invariant
            i <= n,
            n == src@.len(),
            out@ == old(out)@ + src@.subrange(0, i as int),
        decreases n - i,
    {
        out.push(src[i]);
        i += 1;
    }
    assert(src@.subrange(0, n as int) =~= src@);
}

} // verus!
