//! Gumps, the pictures of the user interface.
//!
//! A gump record is `|row_offset:u32 * height|` and after it runs
//! `|color:u16|count:u16|`. Offsets count 4-byte words from the start of the
//! record. A row's runs stand from its offset up to the offset of the row
//! below, those of the last row up to the end of the record. Height and
//! width are not in the record: they are the two values of its index entry.
//! A run paints `count` pixels of its colour from the place where the run
//! before it ended, except that a black run paints nothing.

use crate::canvas::{fits_in_memory, transparent, Canvas, Rgba8};
use crate::color::{is_black, lemma_black_channels, rgba16, Color, Color16};
use crate::error::MulError;
use crate::mul_reader::{lookup, MulReader};
use crate::wire::{get_u16, get_u32, u16_at, u32_at};
use vstd::prelude::*;

verus! {

/// A run of one colour.
#[derive(Clone, Copy, Debug, PartialEq, Eq, Structural)]
pub struct GumpPair {
    /// The colour of the run.
    pub color: Color16,
    /// The number of pixels that the run passes over.
    pub count: u16,
}

/// A gump: for each row its runs from the left.
#[derive(Clone)]
pub struct Gump {
    pub width: u16,
    pub height: u16,
    pub data: Vec<Vec<GumpPair>>,
}

/// The mathematical value of a [`Gump`].
pub struct GumpView {
    pub width: u16,
    pub height: u16,
    pub rows: Seq<Seq<GumpPair>>,
}

/// The mathematical value of a list of rows.
pub open spec fn gump_rows_view(rows: Seq<Vec<GumpPair>>) -> Seq<Seq<GumpPair>> {
    Seq::new(rows.len(), |y: int| rows[y]@)
}

impl View for Gump {
    type V = GumpView;

    open spec fn view(&self) -> GumpView {
        GumpView { width: self.width, height: self.height, rows: gump_rows_view(self.data@) }
    }
}

/// The run that stands at word `w` of record `s`.
pub open spec fn run_at(s: Seq<u8>, w: int) -> GumpPair {
    GumpPair { color: u16_at(s, 4 * w), count: u16_at(s, 4 * w + 2) }
}

/// The word at which the runs of row `y` end: where the row below begins,
/// or the end of the record for the last row.
pub open spec fn gump_row_end(s: Seq<u8>, height: u16, y: int) -> int {
    if y == height - 1 {
        s.len() as int / 4
    } else {
        u32_at(s, 4 * (y + 1)) as int
    }
}

/// Row `y` of the gump of `height` rows in record `s`. Offsets that run
/// backwards are an `InvariantViolation`, a row that ends past the record
/// is `Truncated`.
pub open spec fn parse_gump_row(s: Seq<u8>, height: u16, y: int) -> Result<Seq<GumpPair>, MulError> {
    let first = u32_at(s, 4 * y) as int;
    let end = gump_row_end(s, height, y);
    if first > end {
        Err(MulError::InvariantViolation)
    } else if end > s.len() / 4 {
        Err(MulError::Truncated)
    } else {
        Ok(Seq::new((end - first) as nat, |k: int| run_at(s, first + k)))
    }
}

/// The first `n` rows of the gump in record `s`, or the failure of the
/// first row among them that fails.
pub open spec fn parse_gump_rows(s: Seq<u8>, height: u16, n: int) -> Result<
    Seq<Seq<GumpPair>>,
    MulError,
>
    decreases n,
{
    if n <= 0 {
        Ok(Seq::<Seq<GumpPair>>::empty())
    } else {
        match parse_gump_rows(s, height, n - 1) {
            Err(e) => Err(e),
            Ok(rows) => match parse_gump_row(s, height, n - 1) {
                Err(e) => Err(e),
                Ok(row) => Ok(rows.push(row)),
            },
        }
    }
}

/// The gump that a record holds, given the height and the width that its
/// index entry says.
pub open spec fn parse_gump(s: Seq<u8>, height: u16, width: u16) -> Result<GumpView, MulError> {
    if s.len() % 4 != 0 {
        Err(MulError::InvariantViolation)
    } else if s.len() / 4 < height {
        Err(MulError::Truncated)
    } else {
        match parse_gump_rows(s, height, height as int) {
            Err(e) => Err(e),
            Ok(rows) => Ok(GumpView { width, height, rows }),
        }
    }
}

/// The number of columns that the runs of a row pass over.
pub open spec fn gump_extent(row: Seq<GumpPair>) -> int
    decreases row.len(),
{
    if row.len() == 0 {
        0
    } else {
        gump_extent(row.drop_last()) + row.last().count
    }
}

/// What a run puts on each column that it passes over.
pub open spec fn run_paint(run: GumpPair) -> Rgba8 {
    if is_black(run.color) {
        transparent()
    } else {
        rgba16(run.color)
    }
}

/// The pixel at column `x` of a drawn row.
pub open spec fn gump_pixel(row: Seq<GumpPair>, x: int) -> Rgba8
    decreases row.len(),
{
    if row.len() == 0 {
        transparent()
    } else {
        let first = gump_extent(row.drop_last());
        if first <= x < first + row.last().count {
            run_paint(row.last())
        } else {
            gump_pixel(row.drop_last(), x)
        }
    }
}

/// A gump that has one list of runs for each row, none of which passes
/// over more columns than the width.
pub open spec fn gump_valid(v: GumpView) -> bool {
    &&& v.rows.len() == v.height
    &&& forall|y: int| 0 <= y < v.rows.len() ==> gump_extent(#[trigger] v.rows[y]) <= v.width
}

/// The picture of a gump.
pub open spec fn gump_picture(v: GumpView) -> Seq<Seq<Rgba8>> {
    Seq::new(
        v.height as nat,
        |y: int| Seq::new(v.width as nat, |x: int| gump_pixel(v.rows[y], x)),
    )
}

/// The runs of a row pass over no fewer columns than the first `k` of them.
pub proof fn lemma_gump_extent_take(row: Seq<GumpPair>, k: int)
    requires
        0 <= k <= row.len(),
    ensures
        0 <= gump_extent(row.take(k)) <= gump_extent(row),
    decreases row.len(),
{
    if k == row.len() {
        assert(row.take(k) =~= row);
        if row.len() > 0 {
            lemma_gump_extent_take(row.drop_last(), k - 1);
        }
    } else {
        lemma_gump_extent_take(row.drop_last(), k);
        assert(row.drop_last().take(k) =~= row.take(k));
    }
}

/// Nothing is drawn right of the last run.
pub proof fn lemma_gump_pixel_beyond(row: Seq<GumpPair>, x: int)
    requires
        x >= gump_extent(row),
    ensures
        gump_pixel(row, x) == transparent(),
    decreases row.len(),
{
    if row.len() > 0 {
        lemma_gump_extent_take(row.drop_last(), row.len() - 1);
        assert(row.drop_last().take(row.len() - 1) =~= row.drop_last());
        lemma_gump_pixel_beyond(row.drop_last(), x);
    }
}

/// On the columns that run `k` of a row passes over, the drawn row shows
/// what that run paints: no later run reaches back to them.
pub proof fn lemma_gump_pixel_of_run(row: Seq<GumpPair>, k: int, x: int)
    requires
        0 <= k < row.len(),
        gump_extent(row.take(k)) <= x < gump_extent(row.take(k)) + row[k].count,
    ensures
        gump_pixel(row, x) == run_paint(row[k]),
    decreases row.len(),
{
    if k == row.len() - 1 {
        assert(row.take(k) =~= row.drop_last());
    } else {
        let above = row.drop_last();
        assert(above.take(k) =~= row.take(k));
        assert(above.take(k + 1) =~= row.take(k + 1));
        assert(row.take(k + 1).drop_last() =~= row.take(k));
        assert(row.take(k + 1).last() == row[k]);
        lemma_gump_extent_take(above, k + 1);
        lemma_gump_pixel_of_run(above, k, x);
    }
}

/// A black run paints nothing. In the picture of a valid gump, each of the
/// columns that a black run passes over is transparent, and the run after
/// it starts `count` columns further on.
pub proof fn lemma_black_run_transparent(v: GumpView, y: int, k: int, x: int)
    requires
        gump_valid(v),
        0 <= y < v.height,
        0 <= k < v.rows[y].len(),
        is_black(v.rows[y][k].color),
        gump_extent(v.rows[y].take(k)) <= x < gump_extent(v.rows[y].take(k)) + v.rows[y][k].count,
    ensures
        0 <= x < v.width,
        gump_picture(v)[y][x] == transparent(),
        gump_extent(v.rows[y].take(k + 1)) == gump_extent(v.rows[y].take(k)) + v.rows[y][k].count,
{
    let row = v.rows[y];
    lemma_gump_pixel_of_run(row, k, x);
    assert(row.take(k + 1).drop_last() =~= row.take(k));
    assert(row.take(k + 1).last() == row[k]);
    lemma_gump_extent_take(row, k + 1);
    lemma_gump_extent_take(row, k);
    assert(gump_extent(row) <= v.width);
}

/// Once a row has failed, taking more rows gives the same failure.
pub proof fn lemma_gump_rows_failed(s: Seq<u8>, height: u16, n: int, m: int)
    requires
        0 <= n <= m,
        parse_gump_rows(s, height, n) is Err,
    ensures
        parse_gump_rows(s, height, m) == parse_gump_rows(s, height, n),
    decreases m - n,
{
    if n < m {
        lemma_gump_rows_failed(s, height, n, m - 1);
    }
}

impl Gump {
    /// Whether the gump can be drawn: it is valid, and its picture is one
    /// that the machine can hold.
    pub open spec fn drawable(&self) -> bool {
        gump_valid(self@) && fits_in_memory(self.width as nat, self.height as nat)
    }

    /// Reads a gump out of the bytes of its record.
    ///
    /// A record that is no whole number of 4-byte words, or whose row
    /// offsets run backwards, gives `InvariantViolation`. A record that is
    /// shorter than its table of row offsets, or than a row offset says,
    /// gives `Truncated`. Rows are taken from the top, and the first one
    /// that fails decides.
    pub fn decode(data: &[u8], height: u16, width: u16) -> (r: Result<Gump, MulError>)
        ensures
            match r {
                Ok(gump) => parse_gump(data@, height, width) == Ok::<GumpView, MulError>(gump@),
                Err(e) => parse_gump(data@, height, width) == Err::<GumpView, MulError>(e),
            },
    {
        let len: usize = data.len();
        if len % 4 != 0 {
            return Err(MulError::InvariantViolation);
        }
        let words: usize = len / 4;
        if words < height as usize {
            return Err(MulError::Truncated);
        }
        let mut output: Vec<Vec<GumpPair>> = Vec::new();
        let mut y: usize = 0;
        assert(gump_rows_view(output@) =~= Seq::<Seq<GumpPair>>::empty());
        while y < height as usize
            invariant
                y <= height,
                len == data.len(),
                len % 4 == 0,
                words == len / 4,
                height <= words,
                output@.len() == y,
                parse_gump_rows(data@, height, y as int) == Ok::<Seq<Seq<GumpPair>>, MulError>(
                    gump_rows_view(output@),
                ),
            decreases height - y,
        {
            let first: usize = get_u32(data, 4 * y) as usize;
            let end: usize = if y + 1 == height as usize {
                words
            } else {
                get_u32(data, 4 * (y + 1)) as usize
            };
            if first > end {
                proof {
                    lemma_gump_rows_failed(data@, height, y + 1, height as int);
                }
                return Err(MulError::InvariantViolation);
            }
            if end > words {
                proof {
                    lemma_gump_rows_failed(data@, height, y + 1, height as int);
                }
                return Err(MulError::Truncated);
            }
            let mut row: Vec<GumpPair> = Vec::new();
            let mut w: usize = first;
            while w < end
                invariant
                    first <= w <= end,
                    end <= words,
                    words == data.len() / 4,
                    row@.len() == w - first,
                    forall|k: int| 0 <= k < row@.len() ==> row@[k] == run_at(data@, first + k),
                decreases end - w,
            {
                let color: u16 = get_u16(data, 4 * w);
                let count: u16 = get_u16(data, 4 * w + 2);
                row.push(GumpPair { color, count });
                w += 1;
            }
            proof {
                assert(parse_gump_row(data@, height, y as int) == Ok::<Seq<GumpPair>, MulError>(
                    row@,
                )) by {
                    assert(row@ =~= Seq::new((end - first) as nat, |k: int| run_at(data@, first + k)));
                }
                assert(gump_rows_view(output@.push(row)) =~= gump_rows_view(output@).push(row@));
            }
            output.push(row);
            y += 1;
        }
        Ok(Gump { width, height, data: output })
    }

    /// Whether the gump can be drawn.
    pub fn is_drawable(&self) -> (b: bool)
        ensures
            b == self.drawable(),
    {
        if self.data.len() != self.height as usize {
            return false;
        }
        assert(self.width * self.height <= 65535 * 65535 && 4 * (self.width * self.height) == 4
            * self.width * self.height) by (nonlinear_arith)
            requires
                self.width <= 65535,
                self.height <= 65535,
        ;
        let area: u64 = (self.width as u64) * (self.height as u64);
        if 4 * area > isize::MAX as u64 {
            return false;
        }
        let ghost rows = self@.rows;
        let mut y: usize = 0;
        while y < self.data.len()
            invariant
                y <= self.data.len(),
                rows == self@.rows,
                forall|r: int| 0 <= r < y ==> gump_extent(#[trigger] rows[r]) <= self.width,
            decreases self.data.len() - y,
        {
            let row = &self.data[y];
            assert(rows[y as int] == row@);
            let mut x: u32 = 0;
            let mut k: usize = 0;
            assert(row@.take(0) =~= Seq::<GumpPair>::empty());
            while k < row.len()
                invariant
                    k <= row.len(),
                    y < self.data.len(),
                    rows == self@.rows,
                    rows[y as int] == row@,
                    x == gump_extent(row@.take(k as int)),
                    x <= self.width,
                decreases row.len() - k,
            {
                proof {
                    assert(row@.take(k + 1).drop_last() =~= row@.take(k as int));
                    assert(row@.take(k + 1).last() == row@[k as int]);
                }
                x += row[k].count as u32;
                if x > self.width as u32 {
                    proof {
                        lemma_gump_extent_take(row@, k + 1);
                    }
                    return false;
                }
                k += 1;
            }
            assert(row@.take(k as int) =~= row@);
            y += 1;
        }
        true
    }

    /// Draws the gump: each run paints its pixels from the place where the
    /// run before it ended, and a black run paints nothing.
    pub fn to_image(&self) -> (img: Canvas)
        requires
            self.drawable(),
        ensures
            img.wf(),
            img.spec_width() == self.width,
            img.spec_height() == self.height,
            img@ == gump_picture(self@),
    {
        let ghost v = self@;
        let mut buffer = Canvas::new(self.width as u32, self.height as u32);
        let mut y: usize = 0;
        while y < self.data.len()
            invariant
                y <= self.data.len(),
                v == self@,
                gump_valid(v),
                buffer.wf(),
                buffer.spec_width() == self.width,
                buffer.spec_height() == self.height,
                forall|r: int, c: int|
                    0 <= r < self.height && 0 <= c < self.width ==> (#[trigger] buffer@[r][c])
                        == if r < y {
                        gump_pixel(v.rows[r], c)
                    } else {
                        transparent()
                    },
            decreases self.data.len() - y,
        {
            let row = &self.data[y];
            let ghost before = buffer@;
            assert(v.rows[y as int] == row@);
            assert(gump_extent(v.rows[y as int]) <= self.width);
            let mut x: u32 = 0;
            let mut k: usize = 0;
            assert(row@.take(0) =~= Seq::<GumpPair>::empty());
            while k < row.len()
                invariant
                    k <= row.len(),
                    y < self.height,
                    gump_extent(row@) <= self.width,
                    buffer.wf(),
                    buffer.spec_width() == self.width,
                    buffer.spec_height() == self.height,
                    x == gump_extent(row@.take(k as int)),
                    forall|r: int| 0 <= r < self.height && r != y ==> buffer@[r] == before[r],
                    forall|c: int|
                        0 <= c < self.width ==> buffer@[y as int][c] == gump_pixel(
                            row@.take(k as int),
                            c,
                        ),
                decreases row.len() - k,
            {
                let run_pair: GumpPair = row[k];
                let ghost done = row@.take(k as int);
                proof {
                    assert(row@.take(k + 1).drop_last() =~= done);
                    assert(row@.take(k + 1).last() == run_pair);
                    lemma_gump_extent_take(row@, k + 1);
                    lemma_black_channels(run_pair.color);
                }
                let (r, g, b, a) = run_pair.color.to_rgba();
                if r != 0 || g != 0 || b != 0 {
                    let ghost first = x;
                    let mut i: u16 = 0;
                    while i < run_pair.count
                        invariant
                            i <= run_pair.count,
                            y < self.height,
                            buffer.wf(),
                            buffer.spec_width() == self.width,
                            buffer.spec_height() == self.height,
                            x == first + i,
                            first + run_pair.count <= self.width,
                            forall|r: int|
                                0 <= r < self.height && r != y ==> buffer@[r] == before[r],
                            forall|c: int|
                                0 <= c < self.width ==> buffer@[y as int][c] == if first <= c
                                    < first + i {
                                    (r, g, b, a)
                                } else {
                                    gump_pixel(done, c)
                                },
                        decreases run_pair.count - i,
                    {
                        buffer.put_pixel(x, y as u32, (r, g, b, a));
                        x += 1;
                        i += 1;
                    }
                } else {
                    proof {
                        assert forall|c: int| 0 <= c < self.width implies buffer@[y as int][c]
                            == gump_pixel(row@.take(k + 1), c) by {
                            if x <= c < x + run_pair.count {
                                lemma_gump_pixel_beyond(done, c);
                            }
                        }
                    }
                    x += run_pair.count as u32;
                }
                k += 1;
            }
            proof {
                assert(row@.take(k as int) =~= row@);
                assert forall|r: int, c: int|
                    0 <= r < self.height && 0 <= c < self.width implies (#[trigger] buffer@[r][c])
                    == if r < y + 1 {
                    gump_pixel(v.rows[r], c)
                } else {
                    transparent()
                } by {
                    if r != y {
                        assert(buffer@[r] == before[r]);
                        assert(before[r][c] == if r < y {
                            gump_pixel(v.rows[r], c)
                        } else {
                            transparent()
                        });
                    }
                }
            }
            y += 1;
        }
        assert(buffer@ =~~= gump_picture(v));
        buffer
    }
}

/// What reading gump `id` gives, for an index stream `idx` over a data
/// stream `data`: the first value of the index entry is the height, the
/// second the width.
pub open spec fn gump_lookup(idx: Seq<u8>, data: Seq<u8>, id: u32) -> Result<GumpView, MulError> {
    match lookup(idx, data, id) {
        Ok(rec) => parse_gump(rec.data, rec.opt1, rec.opt2),
        Err(e) => Err(e),
    }
}

/// Reads gumps out of a container.
pub struct GumpReader {
    mul_reader: MulReader,
}

impl GumpReader {
    /// The bytes of the index stream.
    pub closed spec fn index_bytes(&self) -> Seq<u8> {
        self.mul_reader.index_bytes()
    }

    /// The bytes of the data stream.
    pub closed spec fn data_bytes(&self) -> Seq<u8> {
        self.mul_reader.data_bytes()
    }

    /// A reader of the gumps in the given container.
    pub fn from_mul(reader: MulReader) -> (gumps: GumpReader)
        ensures
            gumps.index_bytes() == reader.index_bytes(),
            gumps.data_bytes() == reader.data_bytes(),
    {
        GumpReader { mul_reader: reader }
    }

    /// Reads the record `index` and decodes it as a gump.
    pub fn read_gump(&self, index: u32) -> (r: Result<Gump, MulError>)
        ensures
            match r {
                Ok(gump) => gump_lookup(self.index_bytes(), self.data_bytes(), index) == Ok::<
                    GumpView,
                    MulError,
                >(gump@),
                Err(e) => gump_lookup(self.index_bytes(), self.data_bytes(), index) == Err::<
                    GumpView,
                    MulError,
                >(e),
            },
    {
        match self.mul_reader.read(index) {
            Ok(raw) => Gump::decode(raw.data.as_slice(), raw.opt1, raw.opt2),
            Err(e) => Err(e),
        }
    }
}

} // verus!
