//! Hues, the tables that recolour art.
//!
//! Hues stand in one stream without an index, in groups of eight:
//! `|header:u32|hue * 8|`. A hue is
//! `|color_table:u16 * 32|table_start:u16|table_end:u16|name:u8 * 20|`,
//! the name padded with zero bytes.

use crate::color::Color16;
use crate::error::MulError;
use crate::text::{find_nul, read_text, text_of, until_nul};
use crate::wire::{
    get_u16, get_u32, lemma_u16s_bytes, put_bytes, put_u16, put_u16s, put_u32, u16_at, u16_bytes,
    u16s_at, u16s_bytes, u32_at, u32_bytes,
};
use vstd::prelude::*;
use vstd::slice::slice_subrange;
use vstd::string::{StringExecFns, StringExecFnsIsAscii};
use vstd::utf8::{encode_utf8, is_ascii_chars};

verus! {

/// The size of a hue in bytes: 32 colours, two bounds, 20 bytes of name.
pub const ENTRY_SIZE: u32 = 88;

/// The size of a group in bytes: a header and eight hues.
pub const GROUP_SIZE: u32 = 708;

/// An individual hue.
pub struct Hue {
    /// 32 colour values.
    pub color_table: [Color16; 32],
    /// The first hue value in the table.
    pub table_start: Color16,
    /// The last hue value in the table.
    pub table_end: Color16,
    /// A label for the hue.
    pub name: String,
}

/// The mathematical value of a [`Hue`].
pub struct HueView {
    pub color_table: Seq<u16>,
    pub table_start: u16,
    pub table_end: u16,
    pub name: Seq<char>,
}

impl View for Hue {
    type V = HueView;

    open spec fn view(&self) -> HueView {
        HueView {
            color_table: self.color_table@,
            table_start: self.table_start,
            table_end: self.table_end,
            name: self.name@,
        }
    }
}

impl Clone for Hue {
    fn clone(&self) -> (copy: Hue)
        ensures
            copy == *self,
    {
        Hue {
            color_table: self.color_table,
            table_start: self.table_start,
            table_end: self.table_end,
            name: self.name.clone(),
        }
    }
}

/// `n` zero bytes.
pub open spec fn zeros(n: int) -> Seq<u8> {
    Seq::new(n as nat, |i: int| 0u8)
}

/// The name that stands in a name field: the text before the first zero
/// byte where that is ASCII, and `Error` where it is not.
pub open spec fn hue_name(field: Seq<u8>) -> Seq<char> {
    match text_of(until_nul(field, 0, field.len() as int)) {
        Some(name) => if is_ascii_chars(name) {
            name
        } else {
            "Error"@
        },
        None => "Error"@,
    }
}

/// The hue that stands at byte `at` of a stream.
pub open spec fn parse_hue(s: Seq<u8>, at: int) -> HueView {
    HueView {
        color_table: u16s_at(s, at, 32),
        table_start: u16_at(s, at + 64),
        table_end: u16_at(s, at + 66),
        name: hue_name(s.subrange(at + 68, at + 88)),
    }
}

/// The bytes of a hue.
pub open spec fn hue_bytes(v: HueView) -> Seq<u8> {
    u16s_bytes(v.color_table) + u16_bytes(v.table_start) + u16_bytes(v.table_end) + encode_utf8(
        v.name,
    ) + zeros(20 - encode_utf8(v.name).len())
}

impl Hue {
    pub fn new(color_table: [Color16; 32], table_start: Color16, table_end: Color16, name: String) -> (hue:
        Hue)
        ensures
            hue.color_table == color_table,
            hue.table_start == table_start,
            hue.table_end == table_end,
            hue.name == name,
    {
        Hue { color_table, table_start, table_end, name }
    }

    /// Whether the hue has a serialised form: its name takes 20 bytes at
    /// most.
    pub open spec fn serializable(&self) -> bool {
        encode_utf8(self.name@).len() <= 20
    }

    /// Whether the hue has a serialised form.
    pub fn is_serializable(&self) -> (b: bool)
        ensures
            b == self.serializable(),
    {
        self.name.as_str().as_bytes().len() <= 20
    }

    /// Converts a hue back into its 88 bytes.
    pub fn serialize(&self) -> (out: Vec<u8>)
        requires
            self.serializable(),
        ensures
            out@ == hue_bytes(self@),
            out@.len() == 88,
    {
        let mut writer: Vec<u8> = Vec::new();
        put_u16s(&mut writer, self.color_table.as_slice());
        put_u16(&mut writer, self.table_start);
        put_u16(&mut writer, self.table_end);
        let name = self.name.as_str().as_bytes();
        put_bytes(&mut writer, name);
        let ghost named = writer@;
        let pad: usize = 20 - name.len();
        let mut i: usize = 0;
        while i < pad
            invariant
                i <= pad,
                writer@ == named + zeros(i as int),
            decreases pad - i,
        {
            writer.push(0);
            i += 1;
            assert(writer@ =~= named + zeros(i as int));
        }
        proof {
            lemma_u16s_bytes(self.color_table@);
        }
        writer
    }

    /// Reads the hue that stands at byte `at`.
    pub fn decode(data: &[u8], at: usize) -> (hue: Hue)
        requires
            at + 88 <= data.len(),
        ensures
            hue@ == parse_hue(data@, at as int),
    {
        let mut color_table: [u16; 32] = [0u16; 32];
        let mut idx: usize = 0;
        while idx < 32
            invariant
                idx <= 32,
                at + 88 <= data.len(),
                forall|j: int| 0 <= j < idx ==> color_table@[j] == u16_at(data@, at + 2 * j),
            decreases 32 - idx,
        {
            color_table[idx] = get_u16(data, at + 2 * idx);
            idx += 1;
        }
        assert(color_table@ =~= u16s_at(data@, at as int, 32));
        let table_start: u16 = get_u16(data, at + 64);
        let table_end: u16 = get_u16(data, at + 66);
        let field = slice_subrange(data, at + 68, at + 88);
        let end: usize = find_nul(field, 0, 20);
        let name = match read_text(slice_subrange(field, 0, end)) {
            Some(s) => {
                if s.is_ascii() {
                    s
                } else {
                    String::from_str("Error")
                }
            },
            None => String::from_str("Error"),
        };
        Hue { color_table, table_start, table_end, name }
    }
}

/// A collection of eight hues.
pub struct HueGroup {
    /// Unknown usage.
    pub header: u32,
    pub entries: [Hue; 8],
}

/// The mathematical value of a [`HueGroup`].
pub struct HueGroupView {
    pub header: u32,
    pub entries: Seq<HueView>,
}

impl View for HueGroup {
    type V = HueGroupView;

    open spec fn view(&self) -> HueGroupView {
        HueGroupView { header: self.header, entries: Seq::new(8, |k: int| self.entries@[k]@) }
    }
}

/// The bytes of the first `n` hues of a group.
pub open spec fn hues_bytes(entries: Seq<HueView>, n: int) -> Seq<u8>
    decreases n,
{
    if n <= 0 {
        Seq::<u8>::empty()
    } else {
        hues_bytes(entries, n - 1) + hue_bytes(entries[n - 1])
    }
}

/// The bytes of a group.
pub open spec fn group_bytes(v: HueGroupView) -> Seq<u8> {
    u32_bytes(v.header) + hues_bytes(v.entries, 8)
}

/// The group with the given id in a stream of groups.
pub open spec fn parse_hue_group(s: Seq<u8>, id: u32) -> Result<HueGroupView, MulError> {
    let at = id as int * 708;
    if at + 708 > s.len() {
        Err(MulError::Truncated)
    } else {
        Ok(
            HueGroupView {
                header: u32_at(s, at),
                entries: Seq::new(8, |k: int| parse_hue(s, at + 4 + 88 * k)),
            },
        )
    }
}

impl HueGroup {
    pub fn new(header: u32, entries: [Hue; 8]) -> (group: HueGroup)
        ensures
            group.header == header,
            group.entries == entries,
    {
        HueGroup { header, entries }
    }

    /// Whether the group has a serialised form: each of its hues has one.
    pub open spec fn serializable(&self) -> bool {
        forall|k: int| 0 <= k < 8 ==> (#[trigger] self.entries@[k]).serializable()
    }

    /// Converts a group back into its 708 bytes.
    pub fn serialize(&self) -> (out: Vec<u8>)
        requires
            self.serializable(),
        ensures
            out@ == group_bytes(self@),
            out@.len() == 708,
    {
        let mut writer: Vec<u8> = Vec::new();
        put_u32(&mut writer, self.header);
        let ghost head = writer@;
        let mut k: usize = 0;
        while k < 8
            invariant
                k <= 8,
                self.serializable(),
                head.len() == 4,
                writer@ == head + hues_bytes(self@.entries, k as int),
                writer@.len() == 4 + 88 * k,
            decreases 8 - k,
        {
            assert(self.entries@[k as int].serializable());
            let bytes = self.entries[k].serialize();
            put_bytes(&mut writer, bytes.as_slice());
            k += 1;
            assert(writer@ =~= head + hues_bytes(self@.entries, k as int));
        }
        writer
    }
}

/// Reads groups of hues out of a stream.
pub struct HueReader {
    data: Vec<u8>,
}

impl HueReader {
    /// The bytes of the stream.
    pub closed spec fn bytes(&self) -> Seq<u8> {
        self.data@
    }

    /// A reader of the groups in the given stream.
    pub fn from_readable(data_reader: Vec<u8>) -> (reader: HueReader)
        ensures
            reader.bytes() == data_reader@,
    {
        HueReader { data: data_reader }
    }

    /// Reads the group with the given id, which stands at byte `id * 708`.
    /// A stream that ends before the group does gives `Truncated`.
    pub fn read_hue_group(&self, id: u32) -> (r: Result<HueGroup, MulError>)
        ensures
            match r {
                Ok(group) => parse_hue_group(self.bytes(), id) == Ok::<HueGroupView, MulError>(
                    group@,
                ),
                Err(e) => parse_hue_group(self.bytes(), id) == Err::<HueGroupView, MulError>(e),
            },
    {
        let len: usize = self.data.len();
        if len < 708 || (id as u64) > ((len - 708) / 708) as u64 {
            return Err(MulError::Truncated);
        }
        let at: usize = id as usize * 708;
        let data = self.data.as_slice();
        let header: u32 = get_u32(data, at);
        let entries: [Hue; 8] = [
            Hue::decode(data, at + 4),
            Hue::decode(data, at + 92),
            Hue::decode(data, at + 180),
            Hue::decode(data, at + 268),
            Hue::decode(data, at + 356),
            Hue::decode(data, at + 444),
            Hue::decode(data, at + 532),
            Hue::decode(data, at + 620),
        ];
        let group = HueGroup { header, entries };
        assert(group@.entries =~= Seq::new(8, |k: int| parse_hue(self.data@, at + 4 + 88 * k)));
        Ok(group)
    }
}

} // verus!
