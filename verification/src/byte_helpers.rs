//! Small helpers for bytes and for lists that are read in order.

use vstd::prelude::*;

verus! {

/// A list of items and a place in it from which reading goes on.
pub struct Buffer<T> {
    items: Vec<T>,
    length: usize,
    pos: usize,
}

impl<T: Copy> Buffer<T> {
    /// The items of the buffer.
    pub closed spec fn items(&self) -> Seq<T> {
        self.items@
    }

    /// The place from which reading goes on.
    pub closed spec fn position(&self) -> int {
        self.pos as int
    }

    /// The place lies within the items, and the length is theirs.
    pub closed spec fn wf(&self) -> bool {
        self.length == self.items@.len() && self.pos <= self.length
    }

    /// A buffer that stands before the first of the given items.
    pub fn new(items: Vec<T>) -> (buffer: Buffer<T>)
        ensures
            buffer.wf(),
            buffer.items() == items@,
            buffer.position() == 0,
    {
        let len: usize = items.len();
        Buffer { items, length: len, pos: 0 }
    }

    /// Whether the buffer stands after the last item.
    pub fn eof(&self) -> (b: bool)
        requires
            self.wf(),
        ensures
            b == (self.position() == self.items().len()),
    {
        self.pos == self.length
    }

    /// Reads the next `number` items and moves past them.
    pub fn read_items(&mut self, number: usize) -> (out: Vec<T>)
        requires
            old(self).wf(),
            number + old(self).position() <= old(self).items().len(),
        ensures
            final(self).wf(),
            final(self).items() == old(self).items(),
            final(self).position() == old(self).position() + number,
            out@ == old(self).items().subrange(
                old(self).position(),
                old(self).position() + number,
            ),
    {
        let mut return_data: Vec<T> = Vec::new();
        let first: usize = self.pos;
        let mut i: usize = 0;
        while i < number
            invariant
                i <= number,
                *self == *old(self),
                first == self.pos,
                first + number <= self.items.len(),
                return_data@ == self.items@.subrange(first as int, first + i),
            decreases number - i,
        {
            return_data.push(self.items[first + i]);
            i += 1;
            assert(return_data@ =~= self.items@.subrange(first as int, first + i));
        }
        self.pos = first + number;
        return_data
    }

    /// Moves to the given place.
    pub fn seek(&mut self, pos: usize)
        requires
            old(self).wf(),
            pos <= old(self).items().len(),
        ensures
            final(self).wf(),
            final(self).items() == old(self).items(),
            final(self).position() == pos,
    {
        self.pos = pos;
    }
}

/// The number whose bytes are `bytes`, the least significant first.
pub open spec fn le_value(bytes: Seq<u8>) -> nat
    decreases bytes.len(),
{
    if bytes.len() == 0 {
        0
    } else {
        bytes[0] as nat + 256 * le_value(bytes.drop_first())
    }
}

/// The first `n` bytes of a number, the least significant first.
pub open spec fn le_digits(v: nat, n: nat) -> Seq<u8>
    decreases n,
{
    if n == 0 {
        Seq::<u8>::empty()
    } else {
        seq![(v % 256) as u8] + le_digits(v / 256, (n - 1) as nat)
    }
}

/// The number of values that `n` bytes can tell apart.
pub open spec fn byte_range(n: nat) -> nat
    decreases n,
{
    if n == 0 {
        1
    } else {
        256 * byte_range((n - 1) as nat)
    }
}

/// The value of bytes is less than the number of values that as many bytes
/// can tell apart, and eight bytes fit in 64 bits.
pub proof fn lemma_le_value_bound(bytes: Seq<u8>)
    ensures
        le_value(bytes) < byte_range(bytes.len()),
        bytes.len() <= 8 ==> byte_range(bytes.len()) <= 0x1_0000_0000_0000_0000,
    decreases bytes.len(),
{
    reveal_with_fuel(byte_range, 9);
    if bytes.len() > 0 {
        lemma_le_value_bound(bytes.drop_first());
    }
}

/// The value of the given bytes, the least significant first. Eight bytes
/// are as many as the result can hold.
pub fn bytes_to_le_uint(bytes: Vec<u8>) -> (val: u64)
    requires
        bytes@.len() <= 8,
    ensures
        val == le_value(bytes@),
{
    let size: usize = bytes.len();
    let mut val: u64 = 0;
    let mut i: usize = size;
    assert(bytes@.subrange(size as int, size as int) =~= Seq::<u8>::empty());
    while i > 0
        invariant
            i <= size,
            size == bytes@.len(),
            size <= 8,
            val == le_value(bytes@.subrange(i as int, size as int)),
        decreases i,
    {
        i -= 1;
        proof {
            let tail = bytes@.subrange(i as int, size as int);
            assert(tail.drop_first() =~= bytes@.subrange(i + 1, size as int));
            lemma_le_value_bound(tail);
        }
        val = val * 256 + bytes[i] as u64;
    }
    assert(bytes@.subrange(0, size as int) =~= bytes@);
    val
}

/// The value of the given bytes, the least significant first: the same as
/// [`bytes_to_le_uint`] gives, reckoned from the last byte to the first.
pub fn bytes_to_be_uint(bytes: Vec<u8>) -> (val: u64)
    requires
        bytes@.len() <= 8,
    ensures
        val == le_value(bytes@),
{
    bytes_to_le_uint(bytes)
}

/// The first `size` bytes of `n`, the least significant first. The bytes
/// after the eighth are 0.
pub fn uint_to_le_bytes(n: u64, size: usize) -> (bytes: Vec<u8>)
    ensures
        bytes@ == le_digits(n as nat, size as nat),
{
    let mut bytes: Vec<u8> = Vec::new();
    let mut i: usize = size;
    let mut rest: u64 = n;
    assert(bytes@ + le_digits(rest as nat, i as nat) =~= le_digits(n as nat, size as nat));
    while i > 0
        invariant
            bytes@ + le_digits(rest as nat, i as nat) == le_digits(n as nat, size as nat),
        decreases i,
    {
        proof {
            let tail = le_digits((rest / 256) as nat, (i - 1) as nat);
            assert(bytes@ + (seq![(rest % 256) as u8] + tail) =~= bytes@.push((rest % 256) as u8)
                + tail);
        }
        bytes.push((rest % 256) as u8);
        rest = rest / 256;
        i -= 1;
    }
    assert(bytes@ + Seq::<u8>::empty() =~= bytes@);
    bytes
}

/// The 16-bit values that pairs of bytes hold, the less significant byte
/// first.
pub open spec fn u16_pairs(input: Seq<u8>) -> Seq<u16> {
    Seq::new(input.len() / 2, |i: int| (input[2 * i] as int + 256 * (input[2 * i + 1] as int)) as u16)
}

/// Reads each pair of bytes as a 16-bit value.
pub fn u8vec_to_u16vec(input: Vec<u8>) -> (output: Vec<u16>)
    requires
        input@.len() % 2 == 0,
    ensures
        output@ == u16_pairs(input@),
{
    let mut output: Vec<u16> = Vec::new();
    let len: usize = input.len();
    let mut i: usize = 0;
    while i < len / 2
        invariant
            i <= len / 2,
            len == input@.len(),
            output@.len() == i,
            forall|j: int| 0 <= j < i ==> output@[j] == u16_pairs(input@)[j],
        decreases len / 2 - i,
    {
        output.push(input[i * 2] as u16 + (input[(i * 2) + 1] as u16) * 256);
        i += 1;
    }
    assert(output@ =~= u16_pairs(input@));
    output
}

} // verus!
