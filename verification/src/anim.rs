//! Animations: groups of frames that share a palette.
//!
//! A group record is `|palette:u16 * 256|frame_count:u32|frame_offset:u32 * frame_count|`
//! and after it the frames, each at its offset from the end of the palette.
//! A frame is `|image_centre_x:i16|image_centre_y:i16|width:u16|height:u16|`
//! and after it rows `|header:u32|palette index:u8 * n|` up to a header of
//! `0x7FFF7FFF`. The low 12 bits of a row's header are its `n`, the 10 bits
//! above them place the row vertically and the uppermost 10 horizontally.

use crate::canvas::{fits_in_memory, transparent, Canvas, Rgba8};
use crate::color::{rgba16, Color, Color16};
use crate::error::MulError;
use crate::mul_reader::{lookup, MulReader};
use crate::wire::{get_i16, get_u16, get_u32, i16_at, u16_at, u16s_at, u32_at};
use vstd::prelude::*;
use vstd::slice::{slice_subrange, slice_to_vec};

verus! {

/// The header that ends the rows of a frame.
pub const END_OF_FRAME: u32 = 0x7FFF7FFF;

/// The bits that a row's header is XORed with before its two places are
/// read: `(0x200 << 22) | (0x200 << 12)`.
pub const PLACE_MASK: u32 = 0x80200000;

/// The number of bytes that the palette takes.
pub const PALETTE_BYTES: usize = 512;

/// A run of pixels of a frame.
pub struct Row {
    /// The packed place and length of the run.
    pub header: u32,
    /// The pixels, each an index into the palette.
    pub image_data: Vec<u8>,
}

/// The mathematical value of a [`Row`].
pub struct RowView {
    pub header: u32,
    pub pixels: Seq<u8>,
}

impl View for Row {
    type V = RowView;

    open spec fn view(&self) -> RowView {
        RowView { header: self.header, pixels: self.image_data@ }
    }
}

/// One frame of an animation.
pub struct AnimFrame {
    pub image_centre_x: i16,
    pub image_centre_y: i16,
    pub width: u16,
    pub height: u16,
    pub data: Vec<Row>,
}

/// The mathematical value of an [`AnimFrame`].
pub struct FrameView {
    pub image_centre_x: i16,
    pub image_centre_y: i16,
    pub width: u16,
    pub height: u16,
    pub rows: Seq<RowView>,
}

/// The mathematical value of a list of rows.
pub open spec fn anim_rows_view(rows: Seq<Row>) -> Seq<RowView> {
    Seq::new(rows.len(), |k: int| rows[k]@)
}

impl View for AnimFrame {
    type V = FrameView;

    open spec fn view(&self) -> FrameView {
        FrameView {
            image_centre_x: self.image_centre_x,
            image_centre_y: self.image_centre_y,
            width: self.width,
            height: self.height,
            rows: anim_rows_view(self.data@),
        }
    }
}

/// The frames of one animation and their palette.
pub struct AnimGroup {
    pub palette: [Color16; 256],
    pub frame_count: u32,
    pub frames: Vec<AnimFrame>,
}

/// The mathematical value of an [`AnimGroup`].
pub struct GroupView {
    pub palette: Seq<u16>,
    pub frame_count: u32,
    pub frames: Seq<FrameView>,
}

/// The mathematical value of a list of frames.
pub open spec fn frames_view(frames: Seq<AnimFrame>) -> Seq<FrameView> {
    Seq::new(frames.len(), |k: int| frames[k]@)
}

impl View for AnimGroup {
    type V = GroupView;

    open spec fn view(&self) -> GroupView {
        GroupView {
            palette: self.palette@,
            frame_count: self.frame_count,
            frames: frames_view(self.frames@),
        }
    }
}

/// The number of pixels of the row with the given header.
pub open spec fn run_length(header: u32) -> int {
    (header & 0xFFFu32) as int
}

/// The column at which the row with the given header begins, in a frame
/// with the given centre.
pub open spec fn x_offset(header: u32, image_centre_x: i16) -> int {
    (((header ^ 0x80200000u32) >> 22u32) & 0x3FFu32) as int + image_centre_x - 0x200
}

/// The line on which the row with the given header lies, in a frame with
/// the given centre and height.
pub open spec fn y_offset(header: u32, image_centre_y: i16, height: u16) -> int {
    (((header ^ 0x80200000u32) >> 12u32) & 0x3FFu32) as int + image_centre_y + height - 0x200
}

/// A 10-bit pattern read as a two's complement number.
pub open spec fn signed10(v: int) -> int {
    if v < 512 {
        v
    } else {
        v - 1024
    }
}

/// The two places of a row are the 10-bit fields of its header, read as
/// two's complement numbers and counted from the centre; its length is the
/// 12 bits below them.
pub proof fn lemma_row_places(header: u32, image_centre_x: i16, image_centre_y: i16, height: u16)
    ensures
        run_length(header) == header as int % 4096,
        x_offset(header, image_centre_x) == signed10(header as int / 4194304) + image_centre_x,
        y_offset(header, image_centre_y, height) == signed10(header as int / 4096 % 1024)
            + image_centre_y + height,
{
    let fx: u32 = ((header ^ 0x80200000u32) >> 22u32) & 0x3FFu32;
    let fy: u32 = ((header ^ 0x80200000u32) >> 12u32) & 0x3FFu32;
    let hx: u32 = header / 4194304;
    let hy: u32 = header / 4096 % 1024;
    assert(header & 0xFFFu32 == header % 4096) by (bit_vector);
    assert(hx < 1024 && (hx < 512 ==> fx == hx + 512) && (hx >= 512 ==> fx == hx - 512))
        by (bit_vector)
        requires
            fx == ((header ^ 0x80200000u32) >> 22u32) & 0x3FFu32,
            hx == header / 4194304,
    ;
    assert(hy < 1024 && (hy < 512 ==> fy == hy + 512) && (hy >= 512 ==> fy == hy - 512))
        by (bit_vector)
        requires
            fy == ((header ^ 0x80200000u32) >> 12u32) & 0x3FFu32,
            hy == header / 4096 % 1024,
    ;
}

impl Row {
    /// The column at which the row begins, in a frame with the given centre.
    pub fn x_offset(&self, image_centre_x: i16) -> (x: i32)
        ensures
            x == x_offset(self.header, image_centre_x),
    {
        let header: u32 = self.header;
        let field: u32 = ((header ^ PLACE_MASK) >> 22) & 0x3FF;
        assert(field <= 0x3FF) by (bit_vector)
            requires
                field == ((header ^ 0x80200000u32) >> 22u32) & 0x3FFu32,
        ;
        field as i32 + image_centre_x as i32 - 0x200
    }

    /// The line on which the row lies, in a frame with the given centre and
    /// height.
    pub fn y_offset(&self, image_centre_y: i16, height: u16) -> (y: i32)
        ensures
            y == y_offset(self.header, image_centre_y, height),
    {
        let header: u32 = self.header;
        let field: u32 = ((header ^ PLACE_MASK) >> 12) & 0x3FF;
        assert(field <= 0x3FF) by (bit_vector)
            requires
                field == ((header ^ 0x80200000u32) >> 12u32) & 0x3FFu32,
        ;
        field as i32 + image_centre_y as i32 + height as i32 - 0x200
    }
}

/// A result with `head` put before the rows that it holds.
pub open spec fn after_rows(head: Seq<RowView>, rest: Result<Seq<RowView>, MulError>) -> Result<
    Seq<RowView>,
    MulError,
> {
    match rest {
        Ok(tail) => Ok(head + tail),
        Err(e) => Err(e),
    }
}

/// The rows that stand from byte `at` on, up to the header that ends the
/// frame.
pub open spec fn parse_anim_rows(s: Seq<u8>, at: int) -> Result<Seq<RowView>, MulError>
    decreases s.len() - at,
{
    let header = u32_at(s, at);
    let n = run_length(header);
    if at < 0 || at + 4 > s.len() {
        Err(MulError::Truncated)
    } else if header == 0x7FFF7FFFu32 {
        Ok(Seq::<RowView>::empty())
    } else if n < 0 || at + 4 + n > s.len() {
        Err(MulError::Truncated)
    } else {
        after_rows(
            seq![RowView { header, pixels: s.subrange(at + 4, at + 4 + n) }],
            parse_anim_rows(s, at + 4 + n),
        )
    }
}

/// The frame that stands at byte `at` of record `s`.
pub open spec fn parse_frame(s: Seq<u8>, at: int) -> Result<FrameView, MulError> {
    if at + 8 > s.len() {
        Err(MulError::Truncated)
    } else {
        match parse_anim_rows(s, at + 8) {
            Err(e) => Err(e),
            Ok(rows) => Ok(
                FrameView {
                    image_centre_x: i16_at(s, at),
                    image_centre_y: i16_at(s, at + 2),
                    width: u16_at(s, at + 4),
                    height: u16_at(s, at + 6),
                    rows,
                },
            ),
        }
    }
}

/// The first `n` frames of the group in record `s`, or the failure of the
/// first frame among them that fails.
pub open spec fn parse_frames(s: Seq<u8>, n: int) -> Result<Seq<FrameView>, MulError>
    decreases n,
{
    if n <= 0 {
        Ok(Seq::<FrameView>::empty())
    } else {
        match parse_frames(s, n - 1) {
            Err(e) => Err(e),
            Ok(frames) => match parse_frame(s, 512 + u32_at(s, 516 + 4 * (n - 1))) {
                Err(e) => Err(e),
                Ok(frame) => Ok(frames.push(frame)),
            },
        }
    }
}

/// The group that a record holds.
pub open spec fn parse_group(s: Seq<u8>) -> Result<GroupView, MulError> {
    let frame_count = u32_at(s, 512);
    if s.len() < 516 || s.len() < 516 + 4 * frame_count {
        Err(MulError::Truncated)
    } else {
        match parse_frames(s, frame_count as int) {
            Err(e) => Err(e),
            Ok(frames) => Ok(GroupView { palette: u16s_at(s, 0, 256), frame_count, frames }),
        }
    }
}

/// Once a frame has failed, taking more frames gives the same failure.
pub proof fn lemma_parse_frames_failed(s: Seq<u8>, n: int, m: int)
    requires
        0 <= n <= m,
        parse_frames(s, n) is Err,
    ensures
        parse_frames(s, m) == parse_frames(s, n),
    decreases m - n,
{
    if n < m {
        lemma_parse_frames_failed(s, n, m - 1);
    }
}

/// Reads the frame that stands at byte `at` of a group record.
pub fn read_frame(data: &[u8], at: usize) -> (r: Result<AnimFrame, MulError>)
    ensures
        match r {
            Ok(frame) => parse_frame(data@, at as int) == Ok::<FrameView, MulError>(frame@),
            Err(e) => parse_frame(data@, at as int) == Err::<FrameView, MulError>(e),
        },
{
    let len: usize = data.len();
    if at > len || len - at < 8 {
        return Err(MulError::Truncated);
    }
    let image_centre_x: i16 = get_i16(data, at);
    let image_centre_y: i16 = get_i16(data, at + 2);
    let width: u16 = get_u16(data, at + 4);
    let height: u16 = get_u16(data, at + 6);
    let mut rows: Vec<Row> = Vec::new();
    let mut pos: usize = at + 8;
    assert(anim_rows_view(rows@) =~= Seq::<RowView>::empty());
    loop
        invariant
            len == data.len(),
            at + 8 <= len,
            image_centre_x == i16_at(data@, at as int),
            image_centre_y == i16_at(data@, at + 2),
            width == u16_at(data@, at + 4),
            height == u16_at(data@, at + 6),
            parse_anim_rows(data@, at + 8) == after_rows(
                anim_rows_view(rows@),
                parse_anim_rows(data@, pos as int),
            ),
        decreases len - pos,
    {
        if pos > len || len - pos < 4 {
            return Err(MulError::Truncated);
        }
        let header: u32 = get_u32(data, pos);
        if header == END_OF_FRAME {
            assert(anim_rows_view(rows@) + Seq::<RowView>::empty() =~= anim_rows_view(rows@));
            return Ok(AnimFrame { image_centre_x, image_centre_y, width, height, data: rows });
        }
        let n: u32 = header & 0xFFF;
        assert(n <= 0xFFF) by (bit_vector)
            requires
                n == header & 0xFFFu32,
        ;
        if len - pos - 4 < n as usize {
            return Err(MulError::Truncated);
        }
        let image_data: Vec<u8> = slice_to_vec(
            slice_subrange(data, pos + 4, pos + 4 + n as usize),
        );
        let row = Row { header, image_data };
        proof {
            let head = anim_rows_view(rows@);
            let rest = parse_anim_rows(data@, pos as int + 4 + n as int);
            assert(anim_rows_view(rows@.push(row)) =~= head.push(row@));
            assert(parse_anim_rows(data@, pos as int) == after_rows(seq![row@], rest));
            if rest is Ok {
                assert(head + (seq![row@] + rest->Ok_0) =~= head.push(row@) + rest->Ok_0);
            }
        }
        rows.push(row);
        pos = pos + 4 + n as usize;
    }
}

impl AnimGroup {
    /// Reads a group out of the bytes of its record. A record that ends
    /// before its palette, its table of frame offsets or one of its frames
    /// does gives `Truncated`; nothing else fails.
    pub fn decode(data: &[u8]) -> (r: Result<AnimGroup, MulError>)
        ensures
            match r {
                Ok(group) => parse_group(data@) == Ok::<GroupView, MulError>(group@),
                Err(e) => e == MulError::Truncated && parse_group(data@) == Err::<
                    GroupView,
                    MulError,
                >(e),
            },
    {
        let len: usize = data.len();
        if len < 516 {
            return Err(MulError::Truncated);
        }
        let mut palette: [u16; 256] = [0u16; 256];
        let mut i: usize = 0;
        while i < 256
            invariant
                i <= 256,
                516 <= data.len(),
                forall|j: int| 0 <= j < i ==> palette@[j] == u16_at(data@, 2 * j),
            decreases 256 - i,
        {
            palette[i] = get_u16(data, 2 * i);
            i += 1;
        }
        assert(palette@ =~= u16s_at(data@, 0, 256));
        let frame_count: u32 = get_u32(data, 512);
        if (len - 516) / 4 < frame_count as usize {
            return Err(MulError::Truncated);
        }
        let mut frames: Vec<AnimFrame> = Vec::new();
        let mut k: usize = 0;
        assert(frames_view(frames@) =~= Seq::<FrameView>::empty());
        while k < frame_count as usize
            invariant
                k <= frame_count,
                len == data.len(),
                frame_count == u32_at(data@, 512),
                516 + 4 * frame_count <= len,
                parse_frames(data@, k as int) == Ok::<Seq<FrameView>, MulError>(
                    frames_view(frames@),
                ),
            decreases frame_count - k,
        {
            let offset: u32 = get_u32(data, 516 + 4 * k);
            if offset as u64 + 512 > usize::MAX as u64 {
                proof {
                    lemma_parse_frames_failed(data@, k + 1, frame_count as int);
                }
                return Err(MulError::Truncated);
            }
            match read_frame(data, 512 + offset as usize) {
                Err(e) => {
                    proof {
                        lemma_parse_frames_failed(data@, k + 1, frame_count as int);
                        lemma_parse_frame_error(data@, 512 + offset as int);
                    }
                    return Err(e);
                },
                Ok(frame) => {
                    proof {
                        assert(frames_view(frames@.push(frame)) =~= frames_view(frames@).push(
                            frame@,
                        ));
                    }
                    frames.push(frame);
                },
            }
            k += 1;
        }
        Ok(AnimGroup { palette, frame_count, frames })
    }
}

/// Rows fail only by ending too early.
pub proof fn lemma_parse_anim_rows_error(s: Seq<u8>, at: int)
    ensures
        parse_anim_rows(s, at) is Err ==> parse_anim_rows(s, at) == Err::<Seq<RowView>, MulError>(
            MulError::Truncated,
        ),
    decreases s.len() - at,
{
    let header = u32_at(s, at);
    let n = run_length(header);
    if !(at < 0 || at + 4 > s.len()) && header != 0x7FFF7FFFu32 && !(n < 0 || at + 4 + n
        > s.len()) {
        lemma_parse_anim_rows_error(s, at + 4 + n);
    }
}

/// A frame fails only by ending too early.
pub proof fn lemma_parse_frame_error(s: Seq<u8>, at: int)
    ensures
        parse_frame(s, at) is Err ==> parse_frame(s, at) == Err::<FrameView, MulError>(
            MulError::Truncated,
        ),
{
    lemma_parse_anim_rows_error(s, at + 8);
}

/// Whether a row lies within its frame. A row without pixels lies nowhere,
/// and so within any frame.
pub open spec fn row_fits(row: RowView, f: FrameView) -> bool {
    row.pixels.len() == 0 || {
        &&& 0 <= y_offset(row.header, f.image_centre_y, f.height) < f.height
        &&& 0 <= x_offset(row.header, f.image_centre_x)
        &&& x_offset(row.header, f.image_centre_x) + row.pixels.len() <= f.width
    }
}

/// Whether every row of a frame lies within it.
pub open spec fn frame_fits(f: FrameView) -> bool {
    forall|k: int| 0 <= k < f.rows.len() ==> row_fits(#[trigger] f.rows[k], f)
}

/// The pixel at column `x` of line `y` once the first `n` rows of a frame
/// are drawn: the palette's colour for the pixel of the last row among
/// them that passes over the place, nothing where none does.
pub open spec fn frame_pixel(f: FrameView, palette: Seq<u16>, n: int, x: int, y: int) -> Rgba8
    decreases n,
{
    if n <= 0 {
        transparent()
    } else {
        let row = f.rows[n - 1];
        let first = x_offset(row.header, f.image_centre_x);
        if y == y_offset(row.header, f.image_centre_y, f.height) && first <= x < first
            + row.pixels.len() {
            rgba16(palette[row.pixels[x - first] as int])
        } else {
            frame_pixel(f, palette, n - 1, x, y)
        }
    }
}

/// Why a frame cannot be drawn, if it cannot: `UnsupportedFrame` for one
/// without area, `OutOfBounds` for one whose picture the machine cannot
/// hold, `InvariantViolation` for one with a row that does not lie within
/// it.
pub open spec fn frame_fault(f: FrameView) -> Option<MulError> {
    if f.width == 0 || f.height == 0 {
        Some(MulError::UnsupportedFrame)
    } else if !fits_in_memory(f.width as nat, f.height as nat) {
        Some(MulError::OutOfBounds)
    } else if !frame_fits(f) {
        Some(MulError::InvariantViolation)
    } else {
        None
    }
}

/// The picture of a frame.
pub open spec fn frame_picture(f: FrameView, palette: Seq<u16>) -> Seq<Seq<Rgba8>> {
    Seq::new(
        f.height as nat,
        |y: int|
            Seq::new(f.width as nat, |x: int| frame_pixel(f, palette, f.rows.len() as int, x, y)),
    )
}

impl AnimFrame {
    /// Draws the frame with the colours of `palette`, later rows over
    /// earlier ones.
    ///
    /// A frame whose width or height is 0 gives `UnsupportedFrame`. One
    /// whose picture the machine cannot hold gives `OutOfBounds`. One with
    /// a row that does not lie within it gives `InvariantViolation`.
    pub fn to_image(&self, palette: &[Color16; 256]) -> (r: Result<Canvas, MulError>)
        ensures
            match r {
                Ok(img) => {
                    &&& frame_fault(self@) is None
                    &&& img.wf()
                    &&& img.spec_width() == self.width
                    &&& img@ == frame_picture(self@, palette@)
                },
                Err(e) => frame_fault(self@) == Some(e),
            },
    {
        if self.width == 0 || self.height == 0 {
            return Err(MulError::UnsupportedFrame);
        }
        assert(self.width * self.height <= 65535 * 65535 && 4 * (self.width * self.height) == 4
            * self.width * self.height) by (nonlinear_arith)
            requires
                self.width <= 65535,
                self.height <= 65535,
        ;
        let area: u64 = (self.width as u64) * (self.height as u64);
        if 4 * area > isize::MAX as u64 {
            return Err(MulError::OutOfBounds);
        }
        let ghost f = self@;
        let mut buffer = Canvas::new(self.width as u32, self.height as u32);
        let mut k: usize = 0;
        while k < self.data.len()
            invariant
                k <= self.data.len(),
                f == self@,
                self.width > 0,
                self.height > 0,
                fits_in_memory(self.width as nat, self.height as nat),
                buffer.wf(),
                buffer.spec_width() == self.width,
                buffer.spec_height() == self.height,
                forall|i: int| 0 <= i < k ==> row_fits(#[trigger] f.rows[i], f),
                forall|r: int, c: int|
                    0 <= r < self.height && 0 <= c < self.width ==> (#[trigger] buffer@[r][c])
                        == frame_pixel(f, palette@, k as int, c, r),
            decreases self.data.len() - k,
        {
            let row = &self.data[k];
            assert(f.rows[k as int] == row@);
            let n: usize = row.image_data.len();
            if n > 0 {
                let x0: i32 = row.x_offset(self.image_centre_x);
                let y0: i32 = row.y_offset(self.image_centre_y, self.height);
                if y0 < 0 || y0 >= self.height as i32 || x0 < 0 || n > self.width as usize || x0
                    > self.width as i32 - n as i32 {
                    assert(!row_fits(f.rows[k as int], f));
                    return Err(MulError::InvariantViolation);
                }
                let ghost before = buffer@;
                let mut j: usize = 0;
                while j < n
                    invariant
                        j <= n,
                        n == row.image_data@.len(),
                        0 <= y0 < self.height,
                        0 <= x0,
                        x0 + n <= self.width,
                        buffer.wf(),
                        buffer.spec_width() == self.width,
                        buffer.spec_height() == self.height,
                        forall|r: int, c: int|
                            0 <= r < self.height && 0 <= c < self.width ==> (
                            #[trigger] buffer@[r][c]) == if r == y0 && x0 <= c < x0 + j {
                                rgba16(palette@[row.image_data@[c - x0] as int])
                            } else {
                                before[r][c]
                            },
                    decreases n - j,
                {
                    let px = palette[row.image_data[j] as usize].to_rgba();
                    let ghost prior = buffer@;
                    buffer.put_pixel(x0 as u32 + j as u32, y0 as u32, px);
                    assert forall|r: int, c: int|
                        0 <= r < self.height && 0 <= c < self.width implies (
                    #[trigger] buffer@[r][c]) == if r == y0 && x0 <= c < x0 + j + 1 {
                        rgba16(palette@[row.image_data@[c - x0] as int])
                    } else {
                        before[r][c]
                    } by {
                        if r != y0 {
                            assert(buffer@[r] == prior[r]);
                        }
                        assert(prior[r][c] == if r == y0 && x0 <= c < x0 + j {
                            rgba16(palette@[row.image_data@[c - x0] as int])
                        } else {
                            before[r][c]
                        });
                    }
                    j += 1;
                }
            }
            k += 1;
        }
        assert(buffer@ =~~= frame_picture(f, palette@));
        Ok(buffer)
    }
}

/// What reading animation `id` gives, for an index stream `idx` over a data
/// stream `data`.
pub open spec fn anim_lookup(idx: Seq<u8>, data: Seq<u8>, id: u32) -> Result<GroupView, MulError> {
    match lookup(idx, data, id) {
        Ok(rec) => parse_group(rec.data),
        Err(e) => Err(e),
    }
}

/// Reads animations out of a container.
pub struct AnimReader {
    mul_reader: MulReader,
}

impl AnimReader {
    /// The bytes of the index stream.
    pub closed spec fn index_bytes(&self) -> Seq<u8> {
        self.mul_reader.index_bytes()
    }

    /// The bytes of the data stream.
    pub closed spec fn data_bytes(&self) -> Seq<u8> {
        self.mul_reader.data_bytes()
    }

    /// A reader of the animations in the given container.
    pub fn from_mul(reader: MulReader) -> (anims: AnimReader)
        ensures
            anims.index_bytes() == reader.index_bytes(),
            anims.data_bytes() == reader.data_bytes(),
    {
        AnimReader { mul_reader: reader }
    }

    /// Reads the record `id` and decodes it as a group of frames.
    pub fn read(&self, id: u32) -> (r: Result<AnimGroup, MulError>)
        ensures
            match r {
                Ok(group) => anim_lookup(self.index_bytes(), self.data_bytes(), id) == Ok::<
                    GroupView,
                    MulError,
                >(group@),
                Err(e) => anim_lookup(self.index_bytes(), self.data_bytes(), id) == Err::<
                    GroupView,
                    MulError,
                >(e),
            },
    {
        match self.mul_reader.read(id) {
            Ok(raw) => AnimGroup::decode(raw.data.as_slice()),
            Err(e) => Err(e),
        }
    }
}

} // verus!
