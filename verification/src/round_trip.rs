//! Encoding and decoding undo each other.
//!
//! For land tiles this holds of every record. For static art it holds in
//! one direction of every piece of art that the record format can hold,
//! and in the other of the records whose rows stand in order with nothing
//! between them or after them: the decoder also reads records whose rows
//! overlap or leave gaps, and the encoder never writes those.

use crate::art::sparse::{
    is_terminator, lemma_run_bytes_len, offset_table, parse_row, parse_rows, parse_runs,
    parse_static, row_bytes, row_extent, row_offset, rows_bytes, run_bytes, run_extent,
    runs_bytes, static_bytes, static_serializable, static_valid, RunView, StaticView,
};
use crate::art::tile::{parse_tile, tile_bytes, TileView};
use crate::error::MulError;
use crate::wire::{
    lemma_u16_bytes_read, lemma_u16_read_bytes, lemma_u16s_bytes, lemma_u32_bytes_read,
    lemma_u32_read_bytes, u16_at, u16_bytes, u16s_at, u16s_bytes, u32_bytes,
};
use vstd::prelude::*;

verus! {

/// The bytes `t` stand in `s` from byte `at` on.
pub open spec fn occurs_at(s: Seq<u8>, at: int, t: Seq<u8>) -> bool {
    &&& 0 <= at
    &&& at + t.len() <= s.len()
    &&& forall|i: int| 0 <= i < t.len() ==> s[at + i] == #[trigger] t[i]
}

/// Where two pieces stand one after the other, each stands in its place.
pub proof fn lemma_occurs_split(s: Seq<u8>, at: int, a: Seq<u8>, b: Seq<u8>)
    requires
        occurs_at(s, at, a + b),
    ensures
        occurs_at(s, at, a),
        occurs_at(s, at + a.len(), b),
{
    assert forall|i: int| 0 <= i < a.len() implies s[at + i] == #[trigger] a[i] by {
        assert((a + b)[i] == a[i]);
    }
    assert forall|i: int| 0 <= i < b.len() implies s[at + a.len() + i] == #[trigger] b[i] by {
        assert((a + b)[a.len() + i] == b[i]);
    }
}

/// Two pieces that stand one right after the other stand there as one.
pub proof fn lemma_occurs_join(s: Seq<u8>, at: int, a: Seq<u8>, b: Seq<u8>)
    requires
        occurs_at(s, at, a),
        occurs_at(s, at + a.len(), b),
    ensures
        occurs_at(s, at, a + b),
{
    assert forall|i: int| 0 <= i < (a + b).len() implies s[at + i] == #[trigger] (a + b)[i] by {
        if i < a.len() {
            assert((a + b)[i] == a[i]);
        } else {
            assert((a + b)[i] == b[i - a.len()]);
            assert(s[at + a.len() + (i - a.len())] == b[i - a.len()]);
        }
    }
}

/// What stands in a sequence stands in every sequence around it.
pub proof fn lemma_occurs_within(before: Seq<u8>, s: Seq<u8>, after: Seq<u8>, at: int, t: Seq<u8>)
    requires
        occurs_at(s, at, t),
    ensures
        occurs_at(before + s + after, before.len() + at, t),
{
    let whole = before + s + after;
    assert forall|i: int| 0 <= i < t.len() implies whole[before.len() + at + i]
        == #[trigger] t[i] by {
        assert(whole[before.len() + at + i] == s[at + i]);
    }
}

/// A sequence that stands at the start of one of its own length is it.
pub proof fn lemma_occurs_whole(s: Seq<u8>, t: Seq<u8>)
    requires
        occurs_at(s, 0, t),
        s.len() == t.len(),
    ensures
        s == t,
{
    assert forall|i: int| 0 <= i < t.len() implies s[i] == t[i] by {
        assert(s[0 + i] == t[i]);
    }
    assert(s =~= t);
}

/// Where the bytes of a 16-bit value stand, reading gives the value.
pub proof fn lemma_read_written_u16(s: Seq<u8>, at: int, v: u16)
    requires
        occurs_at(s, at, u16_bytes(v)),
    ensures
        u16_at(s, at) == v,
{
    let b = u16_bytes(v);
    assert(s[at + 0] == b[0]);
    assert(s[at + 1] == b[1]);
    lemma_u16_bytes_read(v);
}

/// The bytes of the 16-bit value that is read at a place stand at that place.
pub proof fn lemma_written_read_u16(s: Seq<u8>, at: int)
    requires
        0 <= at,
        at + 2 <= s.len(),
    ensures
        occurs_at(s, at, u16_bytes(u16_at(s, at))),
{
    lemma_u16_read_bytes(s[at], s[at + 1]);
    let b = u16_bytes(u16_at(s, at));
    assert(b =~= seq![s[at], s[at + 1]]);
    assert forall|i: int| 0 <= i < b.len() implies s[at + i] == #[trigger] b[i] by {}
}

/// Where the bytes of a run of 16-bit values stand, reading gives the run.
pub proof fn lemma_read_written_u16s(s: Seq<u8>, at: int, v: Seq<u16>)
    requires
        occurs_at(s, at, u16s_bytes(v)),
    ensures
        u16s_at(s, at, v.len()) == v,
{
    lemma_u16s_bytes(v);
    let b = u16s_bytes(v);
    assert forall|i: int| 0 <= i < v.len() implies u16_at(s, at + 2 * i) == v[i] by {
        assert(s[at + 2 * i] == b[2 * i]);
        assert(s[at + (2 * i + 1)] == b[2 * i + 1]);
        assert(u16_at(b, 2 * i) == v[i]);
    }
    assert(u16s_at(s, at, v.len()) =~= v);
}

/// The bytes of the 16-bit values that are read from a place on stand at
/// that place.
pub proof fn lemma_written_read_u16s(s: Seq<u8>, at: int, n: nat)
    requires
        0 <= at,
        at + 2 * n <= s.len(),
    ensures
        occurs_at(s, at, u16s_bytes(u16s_at(s, at, n))),
        u16s_bytes(u16s_at(s, at, n)).len() == 2 * n,
    decreases n,
{
    let v = u16s_at(s, at, n);
    lemma_u16s_bytes(v);
    if n == 0 {
    } else {
        let m = (n - 1) as nat;
        lemma_written_read_u16s(s, at, m);
        assert(v.drop_last() =~= u16s_at(s, at, m));
        lemma_written_read_u16(s, at + 2 * m);
        assert(v.last() == u16_at(s, at + 2 * m));
        lemma_occurs_join(s, at, u16s_bytes(v.drop_last()), u16_bytes(v.last()));
    }
}

/// Decoding the record of a land tile gives the tile.
pub proof fn lemma_tile_decode_encode(t: TileView)
    requires
        t.pixels.len() == 1022,
    ensures
        parse_tile(tile_bytes(t)) == Ok::<TileView, MulError>(t),
{
    let s = tile_bytes(t);
    lemma_u16s_bytes(t.pixels);
    lemma_u32_bytes_read(t.header);
    let h = u32_bytes(t.header);
    assert(s[0] == h[0] && s[1] == h[1] && s[2] == h[2] && s[3] == h[3]);
    assert(occurs_at(s, 4, u16s_bytes(t.pixels))) by {
        lemma_occurs_split(s, 0, h, u16s_bytes(t.pixels));
        assert(forall|i: int| 0 <= i < s.len() ==> s[0 + i] == #[trigger] s[i]);
    }
    lemma_read_written_u16s(s, 4, t.pixels);
}

/// Encoding the tile that a record of 2048 bytes holds gives the record.
pub proof fn lemma_tile_encode_decode(s: Seq<u8>)
    requires
        s.len() == 2048,
    ensures
        parse_tile(s) is Ok,
        tile_bytes(parse_tile(s)->Ok_0) == s,
{
    let t = parse_tile(s)->Ok_0;
    lemma_u32_read_bytes(s[0], s[1], s[2], s[3]);
    let h = u32_bytes(t.header);
    assert(h =~= seq![s[0], s[1], s[2], s[3]]);
    assert(occurs_at(s, 0, h)) by {
        assert forall|i: int| 0 <= i < h.len() implies s[0 + i] == #[trigger] h[i] by {}
    }
    lemma_written_read_u16s(s, 4, 1022);
    lemma_occurs_join(s, 0, h, u16s_bytes(t.pixels));
    lemma_occurs_whole(s, tile_bytes(t));
}

/// A row whose runs the record format can hold and a decoder can tell from
/// the end of the row.
pub open spec fn row_writable(row: Seq<RunView>) -> bool {
    forall|k: int|
        0 <= k < row.len() ==> !is_terminator(#[trigger] row[k]) && row[k].run.len() <= 65535
}

/// The bytes and the extent of a row, seen from its first run.
pub proof fn lemma_row_front(a: RunView, rest: Seq<RunView>)
    ensures
        runs_bytes(seq![a] + rest) == run_bytes(a) + runs_bytes(rest),
        row_bytes(seq![a] + rest) == run_bytes(a) + row_bytes(rest),
        row_extent(seq![a] + rest) == run_extent(a) + row_extent(rest),
        row_extent(rest) >= 0,
        runs_bytes(rest).len() % 2 == 0,
    decreases rest.len(),
{
    let row = seq![a] + rest;
    if rest.len() == 0 {
        assert(row.drop_last() =~= Seq::<RunView>::empty());
        assert(row.last() == a);
        assert(runs_bytes(row.drop_last()) =~= Seq::<u8>::empty());
        assert(row_extent(row.drop_last()) == 0);
        assert(runs_bytes(rest) =~= Seq::<u8>::empty());
        assert(runs_bytes(row) =~= run_bytes(a) + runs_bytes(rest));
    } else {
        lemma_row_front(a, rest.drop_last());
        assert(row.drop_last() =~= seq![a] + rest.drop_last());
        assert(row.last() == rest.last());
        lemma_run_bytes_len(rest.last());
        assert(runs_bytes(row) =~= run_bytes(a) + runs_bytes(rest));
    }
    assert(row_bytes(row) =~= run_bytes(a) + row_bytes(rest));
}

/// Where the bytes of a row stand, the decoder reads the row.
pub proof fn lemma_parse_written_row(s: Seq<u8>, at: int, row: Seq<RunView>, room: int)
    requires
        occurs_at(s, at, row_bytes(row)),
        row_writable(row),
        row_extent(row) <= room,
    ensures
        parse_runs(s, at, room) == Ok::<Seq<RunView>, MulError>(row),
    decreases row.len(),
{
    if row.len() == 0 {
        assert(runs_bytes(row) =~= Seq::<u8>::empty());
        assert(row_bytes(row) =~= u16_bytes(0) + u16_bytes(0));
        lemma_occurs_split(s, at, u16_bytes(0), u16_bytes(0));
        lemma_read_written_u16(s, at, 0);
        lemma_read_written_u16(s, at + 2, 0);
        assert(row =~= Seq::<RunView>::empty());
    } else {
        let a = row[0];
        let rest = row.subrange(1, row.len() as int);
        assert(row =~= seq![a] + rest);
        lemma_row_front(a, rest);
        lemma_run_bytes_len(a);
        let n = a.run.len() as u16;
        let head = u16_bytes(a.offset) + u16_bytes(n);
        lemma_occurs_split(s, at, run_bytes(a), row_bytes(rest));
        lemma_occurs_split(s, at, head, u16s_bytes(a.run));
        lemma_occurs_split(s, at, u16_bytes(a.offset), u16_bytes(n));
        lemma_read_written_u16(s, at, a.offset);
        lemma_read_written_u16(s, at + 2, n);
        lemma_read_written_u16s(s, at + 4, a.run);
        assert(!is_terminator(a));
        assert forall|k: int| 0 <= k < rest.len() implies !is_terminator(#[trigger] rest[k])
            && rest[k].run.len() <= 65535 by {
            assert(rest[k] == row[k + 1]);
        }
        lemma_parse_written_row(s, at + 4 + 2 * n, rest, room - a.offset - n);
        let first = RunView { offset: a.offset, run: u16s_at(s, at + 4, n as nat) };
        assert(first == a);
    }
}

/// Where the decoder reads a row, the bytes of the row stand.
pub proof fn lemma_written_parsed_row(s: Seq<u8>, at: int, room: int)
    requires
        parse_runs(s, at, room) is Ok,
    ensures
        occurs_at(s, at, row_bytes(parse_runs(s, at, room)->Ok_0)),
        row_writable(parse_runs(s, at, room)->Ok_0),
    decreases s.len() - at,
{
    let row = parse_runs(s, at, room)->Ok_0;
    let skip = u16_at(s, at);
    let n = u16_at(s, at + 2);
    lemma_written_read_u16(s, at);
    lemma_written_read_u16(s, at + 2);
    if skip == 0 && n == 0 {
        assert(runs_bytes(row) =~= Seq::<u8>::empty());
        assert(row_bytes(row) =~= u16_bytes(0) + u16_bytes(0));
        lemma_occurs_join(s, at, u16_bytes(0), u16_bytes(0));
    } else {
        let a = RunView { offset: skip, run: u16s_at(s, at + 4, n as nat) };
        let next = at + 4 + 2 * n;
        let rest = parse_runs(s, next, room - skip - n)->Ok_0;
        assert(row == seq![a] + rest);
        lemma_written_parsed_row(s, next, room - skip - n);
        lemma_written_read_u16s(s, at + 4, n as nat);
        lemma_row_front(a, rest);
        lemma_run_bytes_len(a);
        let head = u16_bytes(skip) + u16_bytes(n);
        lemma_occurs_join(s, at, u16_bytes(skip), u16_bytes(n));
        lemma_occurs_join(s, at, head, u16s_bytes(a.run));
        lemma_occurs_join(s, at, run_bytes(a), row_bytes(rest));
        assert forall|k: int| 0 <= k < row.len() implies !is_terminator(#[trigger] row[k])
            && row[k].run.len() <= 65535 by {
            if k > 0 {
                assert(row[k] == rest[k - 1]);
            }
        }
    }
}

/// The bytes of rows are a whole number of 16-bit words, and each row
/// stands in them right after the rows before it.
pub proof fn lemma_row_in_rows(rows: Seq<Seq<RunView>>, y: int)
    requires
        0 <= y < rows.len(),
    ensures
        rows_bytes(rows).len() % 2 == 0,
        rows_bytes(rows.take(y)).len() % 2 == 0,
        occurs_at(rows_bytes(rows), rows_bytes(rows.take(y)).len() as int, row_bytes(rows[y])),
    decreases rows.len(),
{
    let above = rows.drop_last();
    let last = rows.last();
    assert(row_bytes(last).len() % 2 == 0) by {
        if last.len() == 0 {
            assert(runs_bytes(last) =~= Seq::<u8>::empty());
        } else {
            let rest = last.subrange(1, last.len() as int);
            assert(last =~= seq![last[0]] + rest);
            lemma_row_front(last[0], rest);
            lemma_run_bytes_len(last[0]);
        }
    }
    if rows.len() == 1 {
        assert(rows_bytes(above) =~= Seq::<u8>::empty());
    } else {
        lemma_row_in_rows(above, if y < rows.len() - 1 {
            y
        } else {
            y - 1
        });
    }
    if y == rows.len() - 1 {
        assert(rows.take(y) =~= above);
        assert forall|i: int| 0 <= i < row_bytes(last).len() implies rows_bytes(
            rows,
        )[rows_bytes(above).len() + i] == #[trigger] row_bytes(last)[i] by {}
    } else {
        assert(above.take(y) =~= rows.take(y));
        assert(above[y] == rows[y]);
        lemma_occurs_within(
            Seq::<u8>::empty(),
            rows_bytes(above),
            row_bytes(last),
            rows_bytes(rows.take(y)).len() as int,
            row_bytes(rows[y]),
        );
        assert(Seq::<u8>::empty() + rows_bytes(above) + row_bytes(last) =~= rows_bytes(rows));
    }
}

/// The table of row offsets holds, two bytes each, where the rows start.
pub proof fn lemma_offset_table(rows: Seq<Seq<RunView>>, n: int, y: int)
    requires
        0 <= y < n <= rows.len(),
        forall|r: int| 0 <= r < rows.len() ==> #[trigger] row_offset(rows, r) <= 65535,
    ensures
        offset_table(rows, n).len() == 2 * n,
        u16_at(offset_table(rows, n), 2 * y) == row_offset(rows, y),
    decreases n,
{
    lemma_offset_table_len(rows, n);
    lemma_offset_table_len(rows, n - 1);
    let entry = u16_bytes(row_offset(rows, n - 1) as u16);
    let above = offset_table(rows, n - 1);
    if y == n - 1 {
        assert(row_offset(rows, y) <= 65535);
        lemma_u16_bytes_read(row_offset(rows, y) as u16);
        assert((above + entry)[2 * y] == entry[0]);
        assert((above + entry)[2 * y + 1] == entry[1]);
    } else {
        lemma_offset_table(rows, n - 1, y);
        assert((above + entry)[2 * y] == above[2 * y]);
        assert((above + entry)[2 * y + 1] == above[2 * y + 1]);
    }
}

/// The table of row offsets takes two bytes for each row.
pub proof fn lemma_offset_table_len(rows: Seq<Seq<RunView>>, n: int)
    requires
        0 <= n,
    ensures
        offset_table(rows, n).len() == 2 * n,
    decreases n,
{
    if n > 0 {
        lemma_offset_table_len(rows, n - 1);
    }
}

/// The header of a static art record.
pub open spec fn static_header(v: StaticView) -> Seq<u8> {
    u16_bytes(v.size) + u16_bytes(v.trigger) + u16_bytes(v.width) + u16_bytes(v.height)
}

/// A static art record is its header, its table of row offsets and its
/// rows, in that order.
pub proof fn lemma_static_layout(v: StaticView)
    ensures
        static_bytes(v).len() == 8 + 2 * v.rows.len() + rows_bytes(v.rows).len(),
        occurs_at(static_bytes(v), 0, static_header(v)),
        occurs_at(static_bytes(v), 8, offset_table(v.rows, v.rows.len() as int)),
        occurs_at(static_bytes(v), 8 + 2 * (v.rows.len() as int), rows_bytes(v.rows)),
        u16_at(static_bytes(v), 0) == v.size,
        u16_at(static_bytes(v), 2) == v.trigger,
        u16_at(static_bytes(v), 4) == v.width,
        u16_at(static_bytes(v), 6) == v.height,
{
    let s = static_bytes(v);
    let head = static_header(v);
    let table = offset_table(v.rows, v.rows.len() as int);
    let body = rows_bytes(v.rows);
    let nothing = Seq::<u8>::empty();
    lemma_offset_table_len(v.rows, v.rows.len() as int);
    assert(head.len() == 8);
    assert(s =~= head + table + body);
    assert(occurs_at(head, 0, head));
    assert(occurs_at(table, 0, table));
    assert(occurs_at(body, 0, body));
    lemma_occurs_within(nothing, head, table + body, 0, head);
    assert(nothing + head + (table + body) =~= s);
    lemma_occurs_within(head, table, body, 0, table);
    lemma_occurs_within(head + table, body, nothing, 0, body);
    assert((head + table) + body + nothing =~= s);
    let left = u16_bytes(v.size) + u16_bytes(v.trigger);
    let right = u16_bytes(v.width) + u16_bytes(v.height);
    assert(head =~= left + right);
    lemma_occurs_split(s, 0, left, right);
    lemma_occurs_split(s, 0, u16_bytes(v.size), u16_bytes(v.trigger));
    lemma_occurs_split(s, 4, u16_bytes(v.width), u16_bytes(v.height));
    lemma_read_written_u16(s, 0, v.size);
    lemma_read_written_u16(s, 2, v.trigger);
    lemma_read_written_u16(s, 4, v.width);
    lemma_read_written_u16(s, 6, v.height);
}

/// Reading a 16-bit value inside a piece that stands in a sequence gives
/// what reading it in the piece gives.
pub proof fn lemma_u16_at_within(s: Seq<u8>, at: int, t: Seq<u8>, i: int)
    requires
        occurs_at(s, at, t),
        0 <= i,
        i + 2 <= t.len(),
    ensures
        u16_at(s, at + i) == u16_at(t, i),
{
    assert(s[at + i] == t[i]);
    assert(s[at + (i + 1)] == t[i + 1]);
}

/// A piece that stands within a piece that stands in a sequence stands in
/// the sequence.
pub proof fn lemma_occurs_nested(s: Seq<u8>, at: int, t: Seq<u8>, inner: int, u: Seq<u8>)
    requires
        occurs_at(s, at, t),
        occurs_at(t, inner, u),
    ensures
        occurs_at(s, at + inner, u),
{
    assert forall|i: int| 0 <= i < u.len() implies s[at + inner + i] == #[trigger] u[i] by {
        assert(t[inner + i] == u[i]);
        assert(s[at + (inner + i)] == t[inner + i]);
    }
}

/// The decoder reads row `y` out of the record of static art.
proof fn lemma_parse_written_static_row(v: StaticView, y: int)
    requires
        0 <= y < v.rows.len(),
        v.rows.len() == v.height,
        row_extent(v.rows[y]) <= v.width,
        row_writable(v.rows[y]),
        forall|r: int| 0 <= r < v.rows.len() ==> #[trigger] row_offset(v.rows, r) <= 65535,
    ensures
        parse_row(static_bytes(v), v.width, v.height, y) == Ok::<Seq<RunView>, MulError>(
            v.rows[y],
        ),
{
    let s = static_bytes(v);
    let h = v.rows.len() as int;
    let table = offset_table(v.rows, h);
    let body = rows_bytes(v.rows);
    lemma_static_layout(v);
    lemma_offset_table(v.rows, h, y);
    lemma_row_in_rows(v.rows, y);
    lemma_u16_at_within(s, 8, table, 2 * y);
    let start = rows_bytes(v.rows.take(y)).len() as int;
    assert(2 * row_offset(v.rows, y) == start);
    lemma_occurs_nested(s, 8 + 2 * h, body, start, row_bytes(v.rows[y]));
    lemma_parse_written_row(s, 8 + 2 * h + start, v.rows[y], v.width as int);
}

/// The decoder reads the first `n` rows out of the record of static art.
proof fn lemma_parse_written_rows(v: StaticView, n: int)
    requires
        static_valid(v),
        static_serializable(v),
        forall|y: int| 0 <= y < v.rows.len() ==> row_writable(#[trigger] v.rows[y]),
        0 <= n <= v.rows.len(),
    ensures
        parse_rows(static_bytes(v), v.width, v.height, n) == Ok::<Seq<Seq<RunView>>, MulError>(
            v.rows.take(n),
        ),
    decreases n,
{
    if n == 0 {
        assert(v.rows.take(0) =~= Seq::<Seq<RunView>>::empty());
    } else {
        let y = n - 1;
        lemma_parse_written_rows(v, y);
        assert(row_extent(v.rows[y]) <= v.width);
        assert(row_writable(v.rows[y]));
        lemma_parse_written_static_row(v, y);
        assert(v.rows.take(y).push(v.rows[y]) =~= v.rows.take(n));
    }
}

/// Decoding the record of static art gives the art, for all art that is
/// valid, that the record format can hold, and that has no run without
/// both gap and pixels.
pub proof fn lemma_static_decode_encode(v: StaticView)
    requires
        static_valid(v),
        static_serializable(v),
        forall|y: int| 0 <= y < v.rows.len() ==> row_writable(#[trigger] v.rows[y]),
    ensures
        parse_static(static_bytes(v)) == Ok::<StaticView, MulError>(v),
{
    let h = v.rows.len() as int;
    lemma_static_layout(v);
    lemma_parse_written_rows(v, h);
    assert(v.rows.take(h) =~= v.rows);
}

/// A record of static art whose rows stand in order right after the table
/// of row offsets, each where the one before it ends, with nothing after
/// the last.
pub open spec fn canonical_static(s: Seq<u8>) -> bool {
    &&& parse_static(s) is Ok
    &&& s.len() == 8 + 2 * parse_static(s)->Ok_0.height + rows_bytes(
        parse_static(s)->Ok_0.rows,
    ).len()
    &&& forall|y: int|
        0 <= y < parse_static(s)->Ok_0.height ==> u16_at(s, 8 + 2 * y) == #[trigger] row_offset(
            parse_static(s)->Ok_0.rows,
            y,
        )
}

/// Where the first `n` rows are read, each of them is read, in its place.
pub proof fn lemma_parse_rows_each(s: Seq<u8>, width: u16, height: u16, n: int, y: int)
    requires
        0 <= y < n,
        parse_rows(s, width, height, n) is Ok,
    ensures
        parse_rows(s, width, height, n)->Ok_0.len() == n,
        parse_row(s, width, height, y) is Ok,
        parse_rows(s, width, height, n)->Ok_0[y] == parse_row(s, width, height, y)->Ok_0,
    decreases n,
{
    lemma_parse_rows_len(s, width, height, n - 1);
    if y < n - 1 {
        lemma_parse_rows_each(s, width, height, n - 1, y);
    }
}

/// Where the first `n` rows are read, they are `n`.
pub proof fn lemma_parse_rows_len(s: Seq<u8>, width: u16, height: u16, n: int)
    requires
        0 <= n,
        parse_rows(s, width, height, n) is Ok,
    ensures
        parse_rows(s, width, height, n)->Ok_0.len() == n,
    decreases n,
{
    if n > 0 {
        lemma_parse_rows_len(s, width, height, n - 1);
    }
}

/// In a canonical record the first `n` rows stand right after the table of
/// row offsets, and the first `n` entries of the table stand right after
/// the header.
proof fn lemma_canonical_prefix(s: Seq<u8>, n: int)
    requires
        canonical_static(s),
        0 <= n <= parse_static(s)->Ok_0.height,
    ensures
        occurs_at(
            s,
            8 + 2 * parse_static(s)->Ok_0.height,
            rows_bytes(parse_static(s)->Ok_0.rows.take(n)),
        ),
        occurs_at(s, 8, offset_table(parse_static(s)->Ok_0.rows, n)),
    decreases n,
{
    let v = parse_static(s)->Ok_0;
    let h = v.height as int;
    if n == 0 {
        assert(v.rows.take(0) =~= Seq::<Seq<RunView>>::empty());
    } else {
        let y = n - 1;
        lemma_canonical_prefix(s, y);
        lemma_parse_rows_each(s, v.width, v.height, h, y);
        let row = v.rows[y];
        let above = v.rows.take(y);
        assert(v.rows.take(n).drop_last() =~= above);
        assert(v.rows.take(n).last() == row);
        lemma_offset_table_len(v.rows, y);
        lemma_row_in_rows(v.rows, y);
        assert(u16_at(s, 8 + 2 * y) == row_offset(v.rows, y));
        assert(2 * row_offset(v.rows, y) == rows_bytes(above).len());
        lemma_written_parsed_row(s, 8 + 2 * h + 2 * u16_at(s, 8 + 2 * y), v.width as int);
        lemma_occurs_join(s, 8 + 2 * h, rows_bytes(above), row_bytes(row));
        lemma_written_read_u16(s, 8 + 2 * y);
        lemma_occurs_join(
            s,
            8,
            offset_table(v.rows, y),
            u16_bytes(row_offset(v.rows, y) as u16),
        );
    }
}

/// Encoding the static art that a canonical record holds gives the record.
pub proof fn lemma_static_encode_decode(s: Seq<u8>)
    requires
        canonical_static(s),
    ensures
        static_bytes(parse_static(s)->Ok_0) == s,
{
    let v = parse_static(s)->Ok_0;
    let h = v.height as int;
    lemma_parse_rows_len(s, v.width, v.height, h);
    lemma_canonical_prefix(s, h);
    assert(v.rows.take(h) =~= v.rows);
    lemma_offset_table_len(v.rows, h);
    lemma_written_read_u16(s, 0);
    lemma_written_read_u16(s, 2);
    lemma_written_read_u16(s, 4);
    lemma_written_read_u16(s, 6);
    let left = u16_bytes(v.size) + u16_bytes(v.trigger);
    let right = u16_bytes(v.width) + u16_bytes(v.height);
    lemma_occurs_join(s, 0, u16_bytes(v.size), u16_bytes(v.trigger));
    lemma_occurs_join(s, 4, u16_bytes(v.width), u16_bytes(v.height));
    lemma_occurs_join(s, 0, left, right);
    let head = static_header(v);
    assert(head =~= left + right);
    let table = offset_table(v.rows, h);
    lemma_occurs_join(s, 0, head, table);
    lemma_occurs_join(s, 0, head + table, rows_bytes(v.rows));
    lemma_occurs_whole(s, static_bytes(v));
}

/// The records that the encoder writes are canonical.
pub proof fn lemma_encoded_is_canonical(v: StaticView)
    requires
        static_valid(v),
        static_serializable(v),
        forall|y: int| 0 <= y < v.rows.len() ==> row_writable(#[trigger] v.rows[y]),
    ensures
        canonical_static(static_bytes(v)),
{
    let s = static_bytes(v);
    let h = v.rows.len() as int;
    lemma_static_decode_encode(v);
    lemma_static_layout(v);
    assert forall|y: int| 0 <= y < v.height implies u16_at(s, 8 + 2 * y) == #[trigger] row_offset(
        v.rows,
        y,
    ) by {
        lemma_offset_table(v.rows, h, y);
        lemma_u16_at_within(s, 8, offset_table(v.rows, h), 2 * y);
    }
}

} // verus!
