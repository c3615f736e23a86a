//! The colours of the radar: one 16-bit colour after the other.

use crate::color::Color16;
use crate::error::MulError;
use crate::wire::{get_u16, get_u16s, u16_at, u16s_at};
use vstd::prelude::*;

verus! {

/// Reads radar colours out of a stream.
pub struct RadarColReader {
    data: Vec<u8>,
}

impl RadarColReader {
    /// The bytes of the stream.
    pub closed spec fn bytes(&self) -> Seq<u8> {
        self.data@
    }

    /// A reader of the colours in the given stream.
    pub fn new(data: Vec<u8>) -> (reader: RadarColReader)
        ensures
            reader.bytes() == data@,
    {
        RadarColReader { data }
    }

    /// Reads the colour with the given id, which stands at byte `id * 2`.
    /// A stream that ends before the colour does gives `Truncated`.
    pub fn read_color(&self, id: u32) -> (r: Result<Color16, MulError>)
        ensures
            r == if id * 2 + 2 <= self.bytes().len() {
                Ok::<u16, MulError>(u16_at(self.bytes(), id * 2))
            } else {
                Err::<u16, MulError>(MulError::Truncated)
            },
    {
        let len: usize = self.data.len();
        if len < 2 || (id as u64) > ((len - 2) / 2) as u64 {
            return Err(MulError::Truncated);
        }
        Ok(get_u16(self.data.as_slice(), id as usize * 2))
    }

    /// Reads all the colours that the stream holds whole.
    pub fn read_colors(&self) -> (r: Result<Vec<Color16>, MulError>)
        ensures
            r is Ok,
            r->Ok_0@ == u16s_at(self.bytes(), 0, (self.bytes().len() / 2) as nat),
    {
        Ok(get_u16s(self.data.as_slice(), 0, self.data.len() / 2))
    }
}

} // verus!
