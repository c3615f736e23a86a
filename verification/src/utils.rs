//! A reader that walks through a slice.

use vstd::prelude::*;

verus! {

/// A slice and a place in it from which reading goes on.
pub struct DataBuffer<'r, T> {
    pos: usize,
    buffer: &'r [T],
}

impl<'r, T> DataBuffer<'r, T> {
    /// The items of the slice.
    pub closed spec fn items(&self) -> Seq<T> {
        self.buffer@
    }

    /// The place from which reading goes on.
    pub closed spec fn position(&self) -> int {
        self.pos as int
    }

    /// A reader that stands before the first item of the slice.
    pub fn new(buffer: &'r [T]) -> (reader: DataBuffer<'r, T>)
        ensures
            reader.items() == buffer@,
            reader.position() == 0,
    {
        DataBuffer { pos: 0, buffer }
    }

    /// Reads the next item and moves past it.
    pub fn read(&mut self) -> (item: &T)
        requires
            old(self).position() < old(self).items().len(),
        ensures
            *item == old(self).items()[old(self).position()],
            final(self).items() == old(self).items(),
            final(self).position() == old(self).position() + 1,
    {
        let item = &self.buffer[self.pos];
        self.pos += 1;
        item
    }
}

} // verus!
