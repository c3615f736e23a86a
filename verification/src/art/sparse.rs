//! Static art: pictures that are stored row by row as runs of pixels.
//!
//! A static art record is
//! `|size:u16|trigger:u16|width:u16|height:u16|row_offset:u16 * height|`
//! and after that table, for each row, runs `|skip:u16|n:u16|pixel:u16 * n|`
//! up to a run whose skip and length are both 0. A row offset counts 16-bit
//! words from the end of the table. A run leaves `skip` places empty and
//! fills the `n` places after them.

use super::Art;
use crate::canvas::{transparent, Canvas, Rgba8};
use crate::color::{rgba16, Color, Color16};
use crate::error::MulError;
use crate::wire::{
    get_u16, get_u16s, lemma_u16s_bytes, put_bytes, put_u16, put_u16s, u16_at, u16_bytes, u16s_at,
    u16s_bytes,
};
use vstd::prelude::*;

verus! {

/// A run of pixels in a row of static art, and the gap before it.
pub struct RunPair {
    /// The number of empty pixels before the run.
    pub offset: u16,
    /// The pixels of the run.
    pub run: Vec<Color16>,
}

/// The mathematical value of a [`RunPair`].
pub struct RunView {
    pub offset: u16,
    pub run: Seq<u16>,
}

impl View for RunPair {
    type V = RunView;

    open spec fn view(&self) -> RunView {
        RunView { offset: self.offset, run: self.run@ }
    }
}

impl RunPair {
    /// Converts the run into its bytes: gap, number of pixels, pixels.
    pub fn serialize(&self) -> (out: Vec<u8>)
        requires
            self.run@.len() <= 65535,
        ensures
            out@ == run_bytes(self@),
    {
        let mut writer: Vec<u8> = Vec::new();
        put_u16(&mut writer, self.offset);
        put_u16(&mut writer, self.run.len() as u16);
        put_u16s(&mut writer, self.run.as_slice());
        assert(writer@ =~= run_bytes(self@));
        writer
    }
}

/// One row of static art: its runs from the left.
pub type StaticRow = Vec<RunPair>;

/// The mathematical value of a row.
pub open spec fn row_view(row: Seq<RunPair>) -> Seq<RunView> {
    Seq::new(row.len(), |k: int| row[k]@)
}

/// A piece of static art.
pub struct Static {
    /// Unused.
    pub size: u16,
    /// Unused.
    pub trigger: u16,
    /// The width in pixels.
    pub width: u16,
    /// The height in pixels.
    pub height: u16,
    /// The rows from the top.
    pub rows: Vec<StaticRow>,
}

/// The mathematical value of a [`Static`].
pub struct StaticView {
    pub size: u16,
    pub trigger: u16,
    pub width: u16,
    pub height: u16,
    pub rows: Seq<Seq<RunView>>,
}

/// The mathematical value of a list of rows.
pub open spec fn rows_view(rows: Seq<StaticRow>) -> Seq<Seq<RunView>> {
    Seq::new(rows.len(), |y: int| row_view(rows[y]@))
}

impl View for Static {
    type V = StaticView;

    open spec fn view(&self) -> StaticView {
        StaticView {
            size: self.size,
            trigger: self.trigger,
            width: self.width,
            height: self.height,
            rows: rows_view(self.rows@),
        }
    }
}

/// The number of columns that a run passes over: its gap and its pixels.
pub open spec fn run_extent(r: RunView) -> int {
    r.offset + r.run.len()
}

/// The number of columns that the runs of a row pass over.
pub open spec fn row_extent(row: Seq<RunView>) -> int
    decreases row.len(),
{
    if row.len() == 0 {
        0
    } else {
        row_extent(row.drop_last()) + run_extent(row.last())
    }
}

/// A run that a decoder would take for the end of a row.
pub open spec fn is_terminator(r: RunView) -> bool {
    r.offset == 0 && r.run.len() == 0
}

/// The invariant of static art: width and height from 1 to 1023, one list
/// of runs for each row, and no row whose runs pass over more columns than
/// the width.
pub open spec fn static_valid(v: StaticView) -> bool {
    &&& 0 < v.width < 1024
    &&& 0 < v.height < 1024
    &&& v.rows.len() == v.height
    &&& forall|y: int| 0 <= y < v.rows.len() ==> row_extent(#[trigger] v.rows[y]) <= v.width
}

/// The pixel at column `x` of a drawn row: the pixel of the run that passes
/// over column `x` with its pixels, nothing where none does.
pub open spec fn sparse_pixel(row: Seq<RunView>, x: int) -> Rgba8
    decreases row.len(),
{
    if row.len() == 0 {
        transparent()
    } else {
        let first = row_extent(row.drop_last()) + row.last().offset;
        if first <= x < first + row.last().run.len() {
            rgba16(row.last().run[x - first])
        } else {
            sparse_pixel(row.drop_last(), x)
        }
    }
}

/// The picture of static art.
pub open spec fn static_picture(v: StaticView) -> Seq<Seq<Rgba8>> {
    Seq::new(
        v.height as nat,
        |y: int| Seq::new(v.width as nat, |x: int| sparse_pixel(v.rows[y], x)),
    )
}

/// A result with `head` put before the runs that it holds.
pub open spec fn after_runs(head: Seq<RunView>, rest: Result<Seq<RunView>, MulError>) -> Result<
    Seq<RunView>,
    MulError,
> {
    match rest {
        Ok(tail) => Ok(head + tail),
        Err(e) => Err(e),
    }
}

/// The runs that stand from byte `at` on, up to the run that ends the row,
/// where `room` columns are left in the row.
pub open spec fn parse_runs(s: Seq<u8>, at: int, room: int) -> Result<Seq<RunView>, MulError>
    decreases s.len() - at,
{
    let skip = u16_at(s, at);
    let n = u16_at(s, at + 2);
    if at < 0 || at + 4 > s.len() {
        Err(MulError::Truncated)
    } else if skip == 0 && n == 0 {
        Ok(Seq::<RunView>::empty())
    } else if skip + n > room {
        Err(MulError::InvariantViolation)
    } else if at + 4 + 2 * n > s.len() {
        Err(MulError::Truncated)
    } else {
        after_runs(
            seq![RunView { offset: skip, run: u16s_at(s, at + 4, n as nat) }],
            parse_runs(s, at + 4 + 2 * n, room - skip - n),
        )
    }
}

/// Row `y` of the static art in record `s`, whose header says `width` and
/// `height`.
pub open spec fn parse_row(s: Seq<u8>, width: u16, height: u16, y: int) -> Result<
    Seq<RunView>,
    MulError,
> {
    parse_runs(s, 8 + 2 * height + 2 * u16_at(s, 8 + 2 * y), width as int)
}

/// The first `n` rows of the static art in record `s`, or the failure of
/// the first row among them that fails.
pub open spec fn parse_rows(s: Seq<u8>, width: u16, height: u16, n: int) -> Result<
    Seq<Seq<RunView>>,
    MulError,
>
    decreases n,
{
    if n <= 0 {
        Ok(Seq::<Seq<RunView>>::empty())
    } else {
        match parse_rows(s, width, height, n - 1) {
            Err(e) => Err(e),
            Ok(rows) => match parse_row(s, width, height, n - 1) {
                Err(e) => Err(e),
                Ok(row) => Ok(rows.push(row)),
            },
        }
    }
}

/// The static art that a record holds.
pub open spec fn parse_static(s: Seq<u8>) -> Result<StaticView, MulError> {
    let width = u16_at(s, 4);
    let height = u16_at(s, 6);
    if s.len() < 8 {
        Err(MulError::Truncated)
    } else if width == 0 || width >= 1024 || height == 0 || height >= 1024 {
        Err(MulError::MalformedDimensions)
    } else if s.len() < 8 + 2 * height {
        Err(MulError::Truncated)
    } else {
        match parse_rows(s, width, height, height as int) {
            Err(e) => Err(e),
            Ok(rows) => Ok(
                StaticView { size: u16_at(s, 0), trigger: u16_at(s, 2), width, height, rows },
            ),
        }
    }
}

/// The bytes of a run: gap, number of pixels, pixels.
pub open spec fn run_bytes(r: RunView) -> Seq<u8> {
    u16_bytes(r.offset) + u16_bytes(r.run.len() as u16) + u16s_bytes(r.run)
}

/// The bytes of the runs of a row, one after the other.
pub open spec fn runs_bytes(row: Seq<RunView>) -> Seq<u8>
    decreases row.len(),
{
    if row.len() == 0 {
        Seq::<u8>::empty()
    } else {
        runs_bytes(row.drop_last()) + run_bytes(row.last())
    }
}

/// The bytes that end a row.
pub open spec fn terminator_bytes() -> Seq<u8> {
    u16_bytes(0) + u16_bytes(0)
}

/// The bytes of a row: its runs and the end of the row.
pub open spec fn row_bytes(row: Seq<RunView>) -> Seq<u8> {
    runs_bytes(row) + terminator_bytes()
}

/// The bytes of rows, one after the other.
pub open spec fn rows_bytes(rows: Seq<Seq<RunView>>) -> Seq<u8>
    decreases rows.len(),
{
    if rows.len() == 0 {
        Seq::<u8>::empty()
    } else {
        rows_bytes(rows.drop_last()) + row_bytes(rows.last())
    }
}

/// Where row `y` starts, in 16-bit words after the table of row offsets.
pub open spec fn row_offset(rows: Seq<Seq<RunView>>, y: int) -> int {
    rows_bytes(rows.take(y)).len() as int / 2
}

/// The first `n` entries of the table of row offsets.
pub open spec fn offset_table(rows: Seq<Seq<RunView>>, n: int) -> Seq<u8>
    decreases n,
{
    if n <= 0 {
        Seq::<u8>::empty()
    } else {
        offset_table(rows, n - 1) + u16_bytes(row_offset(rows, n - 1) as u16)
    }
}

/// The record of static art.
pub open spec fn static_bytes(v: StaticView) -> Seq<u8> {
    u16_bytes(v.size) + u16_bytes(v.trigger) + u16_bytes(v.width) + u16_bytes(v.height)
        + offset_table(v.rows, v.rows.len() as int) + rows_bytes(v.rows)
}

/// What the record format can hold: runs of at most 65535 pixels, and rows
/// that start at most 65535 words after the table of row offsets.
pub open spec fn static_serializable(v: StaticView) -> bool {
    &&& forall|y: int, k: int|
        0 <= y < v.rows.len() && 0 <= k < v.rows[y].len() ==> (#[trigger] v.rows[y][k]).run.len()
            <= 65535
    &&& forall|y: int| 0 <= y < v.rows.len() ==> #[trigger] row_offset(v.rows, y) <= 65535
}

/// Putting one more run at the end of a row adds its bytes and its extent.
pub proof fn lemma_row_push(row: Seq<RunView>, r: RunView)
    ensures
        row_extent(row.push(r)) == row_extent(row) + run_extent(r),
        runs_bytes(row.push(r)) == runs_bytes(row) + run_bytes(r),
{
    assert(row.push(r).drop_last() =~= row);
}

/// The runs of a row pass over no fewer columns than the first `k` of them.
pub proof fn lemma_row_extent_take(row: Seq<RunView>, k: int)
    requires
        0 <= k <= row.len(),
    ensures
        0 <= row_extent(row.take(k)) <= row_extent(row),
    decreases row.len(),
{
    if k == row.len() {
        assert(row.take(k) =~= row);
        if row.len() > 0 {
            lemma_row_extent_take(row.drop_last(), k - 1);
        }
    } else {
        lemma_row_extent_take(row.drop_last(), k);
        assert(row.drop_last().take(k) =~= row.take(k));
    }
}

/// Once a row has failed, taking more rows gives the same failure.
pub proof fn lemma_parse_rows_failed(s: Seq<u8>, width: u16, height: u16, n: int, m: int)
    requires
        0 <= n <= m,
        parse_rows(s, width, height, n) is Err,
    ensures
        parse_rows(s, width, height, m) == parse_rows(s, width, height, n),
    decreases m - n,
{
    if n < m {
        lemma_parse_rows_failed(s, width, height, n, m - 1);
    }
}

/// Reads the runs of one row, which starts at byte `start` and has `room`
/// columns.
fn decode_row(data: &[u8], start: usize, room: u16) -> (r: Result<Vec<RunPair>, MulError>)
    ensures
        match r {
            Ok(row) => parse_runs(data@, start as int, room as int) == Ok::<
                Seq<RunView>,
                MulError,
            >(row_view(row@)) && row_extent(row_view(row@)) <= room,
            Err(e) => parse_runs(data@, start as int, room as int) == Err::<
                Seq<RunView>,
                MulError,
            >(e),
        },
{
    let len: usize = data.len();
    let mut row: Vec<RunPair> = Vec::new();
    let mut pos: usize = start;
    let mut left: u16 = room;
    assert(row_view(row@) =~= Seq::<RunView>::empty());
    loop
        invariant
            len == data.len(),
            left <= room,
            row_extent(row_view(row@)) == room - left,
            parse_runs(data@, start as int, room as int) == after_runs(
                row_view(row@),
                parse_runs(data@, pos as int, left as int),
            ),
        decreases len - pos,
    {
        if pos > len || len - pos < 4 {
            return Err(MulError::Truncated);
        }
        let skip: u16 = get_u16(data, pos);
        let n: u16 = get_u16(data, pos + 2);
        if skip == 0 && n == 0 {
            assert(row_view(row@) + Seq::<RunView>::empty() =~= row_view(row@));
            return Ok(row);
        }
        if skip as u32 + n as u32 > left as u32 {
            return Err(MulError::InvariantViolation);
        }
        if (len - pos - 4) / 2 < n as usize {
            return Err(MulError::Truncated);
        }
        let run: Vec<u16> = get_u16s(data, pos + 4, n as usize);
        let pair = RunPair { offset: skip, run };
        proof {
            let head = row_view(row@);
            let rest = parse_runs(
                data@,
                pos as int + 4 + 2 * (n as int),
                left as int - skip as int - n as int,
            );
            lemma_row_push(head, pair@);
            assert(row_view(row@.push(pair)) =~= head.push(pair@));
            assert(parse_runs(data@, pos as int, left as int) == after_runs(seq![pair@], rest));
            if rest is Ok {
                assert(head + (seq![pair@] + rest->Ok_0) =~= head.push(pair@) + rest->Ok_0);
            }
        }
        row.push(pair);
        pos = pos + 4 + 2 * (n as usize);
        left = left - skip - n;
    }
}

impl Static {
    /// Reads static art out of the bytes of its record.
    ///
    /// A width or a height of 0, or of 1024 and more, gives
    /// `MalformedDimensions`. A record that ends before its table of row
    /// offsets does, or before the end of a row, gives `Truncated`. A row
    /// whose runs pass over more columns than the width gives
    /// `InvariantViolation`. Rows are taken from the top, and the first one
    /// that fails decides.
    pub fn decode(data: &[u8]) -> (r: Result<Static, MulError>)
        ensures
            match r {
                Ok(art) => parse_static(data@) == Ok::<StaticView, MulError>(art@) && static_valid(
                    art@,
                ),
                Err(e) => parse_static(data@) == Err::<StaticView, MulError>(e),
            },
    {
        if data.len() < 8 {
            return Err(MulError::Truncated);
        }
        let size: u16 = get_u16(data, 0);
        let trigger: u16 = get_u16(data, 2);
        let width: u16 = get_u16(data, 4);
        let height: u16 = get_u16(data, 6);
        if width == 0 || width >= 1024 || height == 0 || height >= 1024 {
            return Err(MulError::MalformedDimensions);
        }
        let table_end: usize = 8 + 2 * (height as usize);
        if data.len() < table_end {
            return Err(MulError::Truncated);
        }
        let mut rows: Vec<StaticRow> = Vec::new();
        let mut y: usize = 0;
        assert(rows_view(rows@) =~= Seq::<Seq<RunView>>::empty());
        while y < height as usize
            invariant
                y <= height,
                table_end == 8 + 2 * height,
                table_end <= data.len(),
                width == u16_at(data@, 4),
                height == u16_at(data@, 6),
                0 < width < 1024,
                0 < height < 1024,
                rows@.len() == y,
                parse_rows(data@, width, height, y as int) == Ok::<Seq<Seq<RunView>>, MulError>(
                    rows_view(rows@),
                ),
                forall|k: int|
                    0 <= k < y ==> row_extent(#[trigger] rows_view(rows@)[k]) <= width,
            decreases height - y,
        {
            let offset: u16 = get_u16(data, 8 + 2 * y);
            match decode_row(data, table_end + 2 * (offset as usize), width) {
                Err(e) => {
                    proof {
                        lemma_parse_rows_failed(data@, width, height, y + 1, height as int);
                    }
                    return Err(e);
                },
                Ok(row) => {
                    proof {
                        assert(rows_view(rows@.push(row)) =~= rows_view(rows@).push(
                            row_view(row@),
                        ));
                    }
                    rows.push(row);
                },
            }
            y += 1;
        }
        Ok(Static { size, trigger, width, height, rows })
    }
}

/// Draws one row of static art into row `y` of an image that holds nothing
/// there yet.
fn draw_row(buffer: &mut Canvas, y: u32, row: &Vec<RunPair>)
    requires
        old(buffer).wf(),
        y < old(buffer).spec_height(),
        old(buffer).spec_width() <= u16::MAX,
        row_extent(row_view(row@)) <= old(buffer).spec_width(),
        forall|c: int| 0 <= c < old(buffer).spec_width() ==> old(buffer)@[y as int][c] == transparent(),
    ensures
        final(buffer).wf(),
        final(buffer).spec_width() == old(buffer).spec_width(),
        final(buffer).spec_height() == old(buffer).spec_height(),
        forall|r: int| 0 <= r < old(buffer)@.len() && r != y ==> final(buffer)@[r] == old(buffer)@[r],
        forall|c: int|
            0 <= c < old(buffer).spec_width() ==> final(buffer)@[y as int][c] == sparse_pixel(
                row_view(row@),
                c,
            ),
{
    let ghost runs = row_view(row@);
    let mut x: u32 = 0;
    let mut k: usize = 0;
    assert(runs.take(0) =~= Seq::<RunView>::empty());
    while k < row.len()
        invariant
            k <= row.len(),
            runs == row_view(row@),
            buffer.wf(),
            buffer.spec_width() == old(buffer).spec_width(),
            buffer.spec_height() == old(buffer).spec_height(),
            buffer.spec_width() <= u16::MAX,
            y < buffer.spec_height(),
            row_extent(runs) <= buffer.spec_width(),
            x == row_extent(runs.take(k as int)),
            forall|r: int| 0 <= r < old(buffer)@.len() && r != y ==> buffer@[r] == old(buffer)@[r],
            forall|c: int|
                0 <= c < buffer.spec_width() ==> buffer@[y as int][c] == sparse_pixel(
                    runs.take(k as int),
                    c,
                ),
        decreases row.len() - k,
    {
        let run_pair = &row[k];
        let ghost done = runs.take(k as int);
        let ghost next = runs.take(k + 1);
        proof {
            assert(next.drop_last() =~= done);
            assert(next.last() == run_pair@);
            lemma_row_extent_take(runs, k + 1);
        }
        x += run_pair.offset as u32;
        let ghost first = x;
        let mut j: usize = 0;
        while j < run_pair.run.len()
            invariant
                j <= run_pair.run.len(),
                buffer.wf(),
                buffer.spec_width() == old(buffer).spec_width(),
                buffer.spec_height() == old(buffer).spec_height(),
                buffer.spec_width() <= u16::MAX,
                y < buffer.spec_height(),
                x == first + j,
                first + run_pair.run@.len() <= buffer.spec_width(),
                forall|r: int|
                    0 <= r < old(buffer)@.len() && r != y ==> buffer@[r] == old(buffer)@[r],
                forall|c: int|
                    0 <= c < buffer.spec_width() ==> buffer@[y as int][c] == if first <= c < first
                        + j {
                        rgba16(run_pair.run@[c - first])
                    } else {
                        sparse_pixel(done, c)
                    },
            decreases run_pair.run.len() - j,
        {
            let px = run_pair.run[j].to_rgba();
            buffer.put_pixel(x, y, px);
            x += 1;
            j += 1;
        }
        k += 1;
    }
    assert(runs.take(k as int) =~= runs);
}

impl Art for Static {
    open spec fn serializable(&self) -> bool {
        static_serializable(self@)
    }

    open spec fn wire_bytes(&self) -> Seq<u8> {
        static_bytes(self@)
    }

    open spec fn drawable(&self) -> bool {
        static_valid(self@)
    }

    open spec fn picture_width(&self) -> nat {
        self.width as nat
    }

    open spec fn picture(&self) -> Seq<Seq<Rgba8>> {
        static_picture(self@)
    }

    fn serialize(&self) -> (out: Vec<u8>) {
        let ghost v = self@;
        let mut writer: Vec<u8> = Vec::new();
        put_u16(&mut writer, self.size);
        put_u16(&mut writer, self.trigger);
        put_u16(&mut writer, self.width);
        put_u16(&mut writer, self.height);
        let mut lookup_table: Vec<u8> = Vec::new();
        let mut body: Vec<u8> = Vec::new();
        let mut y: usize = 0;
        assert(v.rows.take(0) =~= Seq::<Seq<RunView>>::empty());
        while y < self.rows.len()
            invariant
                y <= self.rows.len(),
                v == self@,
                static_serializable(v),
                lookup_table@ == offset_table(v.rows, y as int),
                body@ == rows_bytes(v.rows.take(y as int)),
            decreases self.rows.len() - y,
        {
            let row = &self.rows[y];
            let ghost runs = v.rows[y as int];
            assert(runs == row_view(row@));
            assert(row_offset(v.rows, y as int) <= 65535);
            put_u16(&mut lookup_table, (body.len() / 2) as u16);
            let ghost above = body@;
            let mut k: usize = 0;
            assert(runs.take(0) =~= Seq::<RunView>::empty());
            assert(body@ =~= above + runs_bytes(runs.take(0)));
            while k < row.len()
                invariant
                    k <= row.len(),
                    v == self@,
                    static_serializable(v),
                    y < self.rows.len(),
                    runs == v.rows[y as int],
                    runs == row_view(row@),
                    body@ == above + runs_bytes(runs.take(k as int)),
                decreases row.len() - k,
            {
                let pair = &row[k];
                proof {
                    assert(runs[k as int] == pair@);
                    assert(v.rows[y as int][k as int].run.len() <= 65535);
                    assert(runs.take(k + 1).drop_last() =~= runs.take(k as int));
                    assert(runs.take(k + 1).last() == pair@);
                }
                let bytes = pair.serialize();
                put_bytes(&mut body, bytes.as_slice());
                assert(body@ =~= above + runs_bytes(runs.take(k + 1)));
                k += 1;
            }
            put_u16(&mut body, 0);
            put_u16(&mut body, 0);
            proof {
                assert(runs.take(k as int) =~= runs);
                assert(v.rows.take(y + 1).drop_last() =~= v.rows.take(y as int));
                assert(v.rows.take(y + 1).last() == runs);
                assert(body@ =~= rows_bytes(v.rows.take(y + 1)));
            }
            y += 1;
        }
        assert(v.rows.take(y as int) =~= v.rows);
        put_bytes(&mut writer, lookup_table.as_slice());
        put_bytes(&mut writer, body.as_slice());
        assert(writer@ =~= static_bytes(v));
        writer
    }

    fn to_image(&self) -> (img: Canvas) {
        let ghost v = self@;
        assert(4 * (self.width as u32) * (self.height as u32) <= 4 * 1023 * 1023)
            by (nonlinear_arith)
            requires
                self.width <= 1023,
                self.height <= 1023,
        ;
        let mut buffer = Canvas::new(self.width as u32, self.height as u32);
        let mut y: usize = 0;
        while y < self.rows.len()
            invariant
                y <= self.rows.len(),
                v == self@,
                static_valid(v),
                buffer.wf(),
                buffer.spec_width() == self.width,
                buffer.spec_height() == self.height,
                forall|r: int, c: int|
                    0 <= r < self.height && 0 <= c < self.width ==> (#[trigger] buffer@[r][c])
                        == if r < y {
                        sparse_pixel(v.rows[r], c)
                    } else {
                        transparent()
                    },
            decreases self.rows.len() - y,
        {
            let ghost before = buffer@;
            assert(v.rows[y as int] == row_view(self.rows@[y as int]@));
            assert(row_extent(v.rows[y as int]) <= self.width);
            assert forall|c: int| 0 <= c < buffer.spec_width() implies buffer@[y as int][c]
                == transparent() by {}
            draw_row(&mut buffer, y as u32, &self.rows[y]);
            assert forall|r: int, c: int| 0 <= r < self.height && 0 <= c < self.width implies (
            #[trigger] buffer@[r][c]) == if r < y + 1 {
                sparse_pixel(v.rows[r], c)
            } else {
                transparent()
            } by {
                if r != y {
                    assert(buffer@[r] == before[r]);
                    assert(before[r][c] == if r < y {
                        sparse_pixel(v.rows[r], c)
                    } else {
                        transparent()
                    });
                }
            }
            y += 1;
        }
        assert(buffer@ =~~= static_picture(v));
        buffer
    }
}

/// A count, or 65536 where it is more.
pub open spec fn capped(n: int) -> int {
    if n > 65536 {
        65536
    } else {
        n
    }
}

/// The bytes of a run are its two counts and two bytes for each pixel.
pub proof fn lemma_run_bytes_len(r: RunView)
    ensures
        run_bytes(r).len() == 4 + 2 * r.run.len(),
{
    lemma_u16s_bytes(r.run);
}

impl Static {
    /// Whether the art can be drawn.
    pub fn is_drawable(&self) -> (b: bool)
        ensures
            b == self.drawable(),
    {
        if self.width == 0 || self.width >= 1024 || self.height == 0 || self.height >= 1024 {
            return false;
        }
        if self.rows.len() != self.height as usize {
            return false;
        }
        let ghost v = self@;
        let mut y: usize = 0;
        while y < self.rows.len()
            invariant
                y <= self.rows.len(),
                v == self@,
                forall|r: int| 0 <= r < y ==> row_extent(#[trigger] v.rows[r]) <= self.width,
            decreases self.rows.len() - y,
        {
            let row = &self.rows[y];
            let ghost runs = v.rows[y as int];
            assert(runs == row_view(row@));
            let mut x: u32 = 0;
            let mut k: usize = 0;
            assert(runs.take(0) =~= Seq::<RunView>::empty());
            while k < row.len()
                invariant
                    k <= row.len(),
                    y < self.rows.len(),
                    v == self@,
                    runs == v.rows[y as int],
                    runs == row_view(row@),
                    x == row_extent(runs.take(k as int)),
                    x <= self.width,
                decreases row.len() - k,
            {
                let pair = &row[k];
                proof {
                    assert(runs.take(k + 1).drop_last() =~= runs.take(k as int));
                    assert(runs.take(k + 1).last() == pair@);
                    lemma_row_extent_take(runs, k + 1);
                }
                if pair.run.len() > self.width as usize {
                    return false;
                }
                x = x + pair.offset as u32 + pair.run.len() as u32;
                if x > self.width as u32 {
                    return false;
                }
                k += 1;
            }
            assert(runs.take(k as int) =~= runs);
            y += 1;
        }
        true
    }

    /// Whether the art has a serialised form.
    pub fn is_serializable(&self) -> (b: bool)
        ensures
            b == self.serializable(),
    {
        let ghost v = self@;
        let mut words: usize = 0;
        let mut y: usize = 0;
        assert(v.rows.take(0) =~= Seq::<Seq<RunView>>::empty());
        while y < self.rows.len()
            invariant
                y <= self.rows.len(),
                v == self@,
                rows_bytes(v.rows.take(y as int)).len() % 2 == 0,
                words == capped(row_offset(v.rows, y as int)),
                forall|r: int| 0 <= r < y ==> #[trigger] row_offset(v.rows, r) <= 65535,
                forall|r: int, k: int|
                    0 <= r < y && 0 <= k < v.rows[r].len() ==> (#[trigger] v.rows[r][k]).run.len()
                        <= 65535,
            decreases self.rows.len() - y,
        {
            if words > 65535 {
                return false;
            }
            let row = &self.rows[y];
            let ghost runs = v.rows[y as int];
            assert(runs == row_view(row@));
            let mut k: usize = 0;
            let mut row_words: usize = 0;
            assert(runs.take(0) =~= Seq::<RunView>::empty());
            while k < row.len()
                invariant
                    k <= row.len(),
                    y < self.rows.len(),
                    v == self@,
                    runs == v.rows[y as int],
                    runs == row_view(row@),
                    runs_bytes(runs.take(k as int)).len() % 2 == 0,
                    row_words == capped(runs_bytes(runs.take(k as int)).len() as int / 2),
                    forall|j: int| 0 <= j < k ==> (#[trigger] runs[j]).run.len() <= 65535,
                decreases row.len() - k,
            {
                let pair = &row[k];
                proof {
                    assert(runs[k as int] == pair@);
                    assert(runs.take(k + 1).drop_last() =~= runs.take(k as int));
                    assert(runs.take(k + 1).last() == pair@);
                    lemma_run_bytes_len(pair@);
                }
                if pair.run.len() > 65535 {
                    assert(v.rows[y as int][k as int].run.len() > 65535);
                    return false;
                }
                row_words = row_words + 2 + pair.run.len();
                if row_words > 65536 {
                    row_words = 65536;
                }
                k += 1;
            }
            proof {
                assert(runs.take(k as int) =~= runs);
                assert(v.rows.take(y + 1).drop_last() =~= v.rows.take(y as int));
                assert(v.rows.take(y + 1).last() == runs);
                assert(terminator_bytes().len() == 4);
            }
            words = words + row_words + 2;
            if words > 65536 {
                words = 65536;
            }
            y += 1;
        }
        true
    }
}

} // verus!
