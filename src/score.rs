//! How a move changes the score.
use vstd::prelude::*;

use crate::board::{cell, from_rows, row_of, transpose_spec};
use crate::game::{move_spec, move_left_spec, move_right_spec, score_spec, Direction};
use crate::moves::{row_score, tile_score};
use crate::row::{
    cells_of, merge_power, merged, pack, pad4, reverse_row, slid, slide_high, slide_low, tiles_from,
};

verus! {

/// The points of all cells of `s`.
pub open spec fn seq_score(s: Seq<u64>) -> int
    decreases s.len(),
{
    if s.len() == 0 {
        0
    } else {
        tile_score(s[0]) + seq_score(s.drop_first())
    }
}

proof fn lemma_tile_score_merge(a: u64)
    requires
        a < 15,
    ensures
        tile_score(merge_power(a)) >= 2 * tile_score(a),
{
    if a > 1 {
        assert(2u64 << (a + 1) as u64 == 2 * (2u64 << a) && 2u64 << a <= 0x8000) by (bit_vector)
            requires
                a < 15,
        ;
        let x = 2u64 << a;
        assert(a * (2 * x) >= 2 * ((a - 1) * x)) by (nonlinear_arith)
            requires
                a > 1,
        ;
    } else if a == 1 {
        crate::moves::lemma_tile_score_bound(2);
    }
}

/// Empty cells score nothing, so the tiles score what the cells do.
proof fn lemma_tiles_score(line: Seq<u64>, i: int)
    requires
        0 <= i <= line.len(),
    ensures
        seq_score(tiles_from(line, i)) == seq_score(line.subrange(i, line.len() as int)),
    decreases line.len() - i,
{
    if i < line.len() {
        lemma_tiles_score(line, i + 1);
        let s = line.subrange(i, line.len() as int);
        assert(s.drop_first() =~= line.subrange(i + 1, line.len() as int));
        if line[i] != 0 {
            let t = tiles_from(line, i);
            assert(t.drop_first() =~= tiles_from(line, i + 1));
        }
    }
}

/// Merging never lowers the points.
proof fn lemma_merged_score(s: Seq<u64>)
    requires
        forall|k: int| 0 <= k < s.len() ==> s[k] < 16,
    ensures
        seq_score(merged(s)) >= seq_score(s),
    decreases s.len(),
{
    if s.len() >= 2 {
        let m = merged(s);
        if s[0] == s[1] && s[0] < 15 {
            let u = s.subrange(2, s.len() as int);
            lemma_merged_score(u);
            assert(s.drop_first().drop_first() =~= u);
            assert(s.drop_first()[0] == s[1]);
            assert(seq_score(s.drop_first()) == tile_score(s[1]) + seq_score(u));
            assert(m.drop_first() =~= merged(u));
            assert(m[0] == merge_power(s[0]));
            assert(seq_score(m) == tile_score(merge_power(s[0])) + seq_score(merged(u)));
            lemma_tile_score_merge(s[0]);
        } else {
            let u = s.drop_first();
            lemma_merged_score(u);
            assert(m.drop_first() =~= merged(u));
            assert(m[0] == s[0]);
            assert(seq_score(m) == tile_score(s[0]) + seq_score(merged(u)));
        }
    }
}

/// Four cells score the sum of their points.
proof fn lemma_seq_score4(s: Seq<u64>)
    requires
        s.len() == 4,
    ensures
        seq_score(s) == tile_score(s[0]) + tile_score(s[1]) + tile_score(s[2]) + tile_score(s[3]),
{
    reveal_with_fuel(seq_score, 5);
    assert(s.drop_first()[0] == s[1]);
    assert(s.drop_first().drop_first()[0] == s[2]);
    assert(s.drop_first().drop_first().drop_first()[0] == s[3]);
    assert(s.drop_first().drop_first().drop_first().drop_first().len() == 0);
}

/// Padding with empty cells adds no points.
proof fn lemma_pad_score(m: Seq<u64>)
    requires
        m.len() <= 4,
    ensures
        seq_score(pad4(m)) == seq_score(m),
{
    reveal_with_fuel(seq_score, 5);
    lemma_seq_score4(pad4(m));
    let p = pad4(m);
    if m.len() >= 1 {
        assert(m.drop_first()[0] == m[1] || m.len() < 2);
    }
    if m.len() == 1 {
        assert(m.drop_first().len() == 0);
    } else if m.len() == 2 {
        assert(m.drop_first().drop_first().len() == 0);
        assert(m.drop_first()[0] == m[1]);
    } else if m.len() == 3 {
        assert(m.drop_first()[0] == m[1]);
        assert(m.drop_first().drop_first()[0] == m[2]);
        assert(m.drop_first().drop_first().drop_first().len() == 0);
    } else if m.len() == 4 {
        assert(p =~= m);
    }
}

/// The cells of a packed row are the values packed.
pub(crate) proof fn lemma_pack_cells(l: Seq<u64>)
    requires
        l.len() == 4,
        forall|k: int| 0 <= k < 4 ==> l[k] < 16,
    ensures
        cells_of(pack(l)) == l,
{
    let (a, b, c, d) = (l[0], l[1], l[2], l[3]);
    assert(a < 16 && b < 16 && c < 16 && d < 16 ==> {
        let x = a | (b << 4u64) | (c << 8u64) | (d << 12u64);
        &&& x & 0xF == a
        &&& (x >> 4u64) & 0xF == b
        &&& (x >> 8u64) & 0xF == c
        &&& (x >> 12u64) & 0xF == d
    }) by (bit_vector);
    assert(cells_of(pack(l)) =~= l);
}

/// Sliding a row towards its lowest cell never lowers its score.
proof fn lemma_slide_low_score(row: u64)
    ensures
        row_score(slide_low(row)) >= row_score(row),
{
    let c = cells_of(row);
    assert((row & 0xF) < 16 && ((row >> 4) & 0xF) < 16 && ((row >> 8) & 0xF) < 16 && ((row >> 12)
        & 0xF) < 16) by (bit_vector);
    let t = tiles_from(c, 0);
    crate::row::lemma_tiles_small(c, 0);
    crate::row::lemma_merged_small(t);
    crate::row::lemma_tiles_len(c, 0);
    crate::row::lemma_merged_len(t);
    let l = slid(c);
    lemma_pack_cells(l);
    lemma_seq_score4(l);
    lemma_pad_score(merged(t));
    lemma_merged_score(t);
    lemma_tiles_score(c, 0);
    assert(c.subrange(0, 4) =~= c);
    lemma_seq_score4(c);
}

/// Reversing a row keeps its score.
proof fn lemma_reverse_score(row: u64)
    ensures
        row_score(reverse_row(row)) == row_score(row),
{
    assert({
        let r = reverse_row(row);
        &&& r & 0xF == (row >> 12u64) & 0xF
        &&& (r >> 4u64) & 0xF == (row >> 8u64) & 0xF
        &&& (r >> 8u64) & 0xF == (row >> 4u64) & 0xF
        &&& (r >> 12u64) & 0xF == row & 0xF
    }) by (bit_vector);
}

/// The rows of a board built from rows are those rows.
pub(crate) proof fn lemma_rows_of(s0: u64, s1: u64, s2: u64, s3: u64)
    requires
        s0 < 0x1_0000,
        s1 < 0x1_0000,
        s2 < 0x1_0000,
        s3 < 0x1_0000,
    ensures
        row_of(from_rows(s0, s1, s2, s3), 0) == s0,
        row_of(from_rows(s0, s1, s2, s3), 1) == s1,
        row_of(from_rows(s0, s1, s2, s3), 2) == s2,
        row_of(from_rows(s0, s1, s2, s3), 3) == s3,
{
    assert({
        let x = s0 | (s1 << 16u64) | (s2 << 32u64) | (s3 << 48u64);
        &&& (x >> 0u64) & 0xFFFF == s0
        &&& (x >> 16u64) & 0xFFFF == s1
        &&& (x >> 32u64) & 0xFFFF == s2
        &&& (x >> 48u64) & 0xFFFF == s3
    }) by (bit_vector)
        requires
            s0 < 0x1_0000,
            s1 < 0x1_0000,
            s2 < 0x1_0000,
            s3 < 0x1_0000,
    ;
}

/// The score of a board is the points of its sixteen cells.
proof fn lemma_score_cells(b: u64)
    ensures
        score_spec(b) == tile_score(cell(b, 0)) + tile_score(cell(b, 1)) + tile_score(cell(b, 2))
            + tile_score(cell(b, 3)) + tile_score(cell(b, 4)) + tile_score(cell(b, 5)) + tile_score(
            cell(b, 6),
        ) + tile_score(cell(b, 7)) + tile_score(cell(b, 8)) + tile_score(cell(b, 9)) + tile_score(
            cell(b, 10),
        ) + tile_score(cell(b, 11)) + tile_score(cell(b, 12)) + tile_score(cell(b, 13))
            + tile_score(cell(b, 14)) + tile_score(cell(b, 15)),
{
    lemma_row_cells(b, 0);
    lemma_row_cells(b, 1);
    lemma_row_cells(b, 2);
    lemma_row_cells(b, 3);
}

/// The cells of row `r` of a board are its cells `4 * r` to `4 * r + 3`.
proof fn lemma_row_cells(b: u64, r: u64)
    requires
        r < 4,
    ensures
        cells_of(row_of(b, r))[0] == cell(b, (4 * r) as u64),
        cells_of(row_of(b, r))[1] == cell(b, (4 * r + 1) as u64),
        cells_of(row_of(b, r))[2] == cell(b, (4 * r + 2) as u64),
        cells_of(row_of(b, r))[3] == cell(b, (4 * r + 3) as u64),
{
    assert(row_of(b, r) & 0xF == cell(b, (4 * r) as u64) && (row_of(b, r) >> 4u64) & 0xF == cell(
        b,
        (4 * r + 1) as u64,
    ) && (row_of(b, r) >> 8u64) & 0xF == cell(b, (4 * r + 2) as u64) && (row_of(b, r) >> 12u64)
        & 0xF == cell(b, (4 * r + 3) as u64)) by (bit_vector)
        requires
            r < 4,
    ;
}

/// Transposing keeps the score.
proof fn lemma_transpose_score(b: u64)
    ensures
        score_spec(transpose_spec(b)) == score_spec(b),
{
    let t = transpose_spec(b);
    lemma_score_cells(b);
    lemma_score_cells(t);
    crate::board::lemma_transpose_cells(b);
    assert(cell(t, 0) == cell(b, 0) && cell(t, 1) == cell(b, 4) && cell(t, 2) == cell(b, 8)
        && cell(t, 3) == cell(b, 12)) by {
        assert(cell(t, (4 * 0u64 + 0u64) as u64) == cell(b, (4 * 0u64 + 0u64) as u64));
        assert(cell(t, (4 * 0u64 + 1u64) as u64) == cell(b, (4 * 1u64 + 0u64) as u64));
        assert(cell(t, (4 * 0u64 + 2u64) as u64) == cell(b, (4 * 2u64 + 0u64) as u64));
        assert(cell(t, (4 * 0u64 + 3u64) as u64) == cell(b, (4 * 3u64 + 0u64) as u64));
    }
    assert(cell(t, 4) == cell(b, 1) && cell(t, 5) == cell(b, 5) && cell(t, 6) == cell(b, 9)
        && cell(t, 7) == cell(b, 13)) by {
        assert(cell(t, (4 * 1u64 + 0u64) as u64) == cell(b, (4 * 0u64 + 1u64) as u64));
        assert(cell(t, (4 * 1u64 + 1u64) as u64) == cell(b, (4 * 1u64 + 1u64) as u64));
        assert(cell(t, (4 * 1u64 + 2u64) as u64) == cell(b, (4 * 2u64 + 1u64) as u64));
        assert(cell(t, (4 * 1u64 + 3u64) as u64) == cell(b, (4 * 3u64 + 1u64) as u64));
    }
    assert(cell(t, 8) == cell(b, 2) && cell(t, 9) == cell(b, 6) && cell(t, 10) == cell(b, 10)
        && cell(t, 11) == cell(b, 14)) by {
        assert(cell(t, (4 * 2u64 + 0u64) as u64) == cell(b, (4 * 0u64 + 2u64) as u64));
        assert(cell(t, (4 * 2u64 + 1u64) as u64) == cell(b, (4 * 1u64 + 2u64) as u64));
        assert(cell(t, (4 * 2u64 + 2u64) as u64) == cell(b, (4 * 2u64 + 2u64) as u64));
        assert(cell(t, (4 * 2u64 + 3u64) as u64) == cell(b, (4 * 3u64 + 2u64) as u64));
    }
    assert(cell(t, 12) == cell(b, 3) && cell(t, 13) == cell(b, 7) && cell(t, 14) == cell(b, 11)
        && cell(t, 15) == cell(b, 15)) by {
        assert(cell(t, (4 * 3u64 + 0u64) as u64) == cell(b, (4 * 0u64 + 3u64) as u64));
        assert(cell(t, (4 * 3u64 + 1u64) as u64) == cell(b, (4 * 1u64 + 3u64) as u64));
        assert(cell(t, (4 * 3u64 + 2u64) as u64) == cell(b, (4 * 2u64 + 3u64) as u64));
        assert(cell(t, (4 * 3u64 + 3u64) as u64) == cell(b, (4 * 3u64 + 3u64) as u64));
    }
}

proof fn lemma_right_score(b: u64)
    ensures
        score_spec(move_right_spec(b)) >= score_spec(b),
{
    let (r0, r1, r2, r3) = (row_of(b, 0), row_of(b, 1), row_of(b, 2), row_of(b, 3));
    crate::row::lemma_slide_low_bound(r0);
    crate::row::lemma_slide_low_bound(r1);
    crate::row::lemma_slide_low_bound(r2);
    crate::row::lemma_slide_low_bound(r3);
    lemma_rows_of(slide_low(r0), slide_low(r1), slide_low(r2), slide_low(r3));
    lemma_slide_low_score(r0);
    lemma_slide_low_score(r1);
    lemma_slide_low_score(r2);
    lemma_slide_low_score(r3);
}

proof fn lemma_left_score(b: u64)
    ensures
        score_spec(move_left_spec(b)) >= score_spec(b),
{
    let (r0, r1, r2, r3) = (row_of(b, 0), row_of(b, 1), row_of(b, 2), row_of(b, 3));
    crate::row::lemma_slide_high_bound(r0);
    crate::row::lemma_slide_high_bound(r1);
    crate::row::lemma_slide_high_bound(r2);
    crate::row::lemma_slide_high_bound(r3);
    lemma_rows_of(slide_high(r0), slide_high(r1), slide_high(r2), slide_high(r3));
    lemma_slide_low_score(reverse_row(r0));
    lemma_slide_low_score(reverse_row(r1));
    lemma_slide_low_score(reverse_row(r2));
    lemma_slide_low_score(reverse_row(r3));
    lemma_reverse_score(r0);
    lemma_reverse_score(r1);
    lemma_reverse_score(r2);
    lemma_reverse_score(r3);
    lemma_reverse_score(slide_low(reverse_row(r0)));
    lemma_reverse_score(slide_low(reverse_row(r1)));
    lemma_reverse_score(slide_low(reverse_row(r2)));
    lemma_reverse_score(slide_low(reverse_row(r3)));
}

/// A move never lowers the score: each merge turns two tiles into one worth
/// at least as many points.
pub proof fn lemma_score_never_drops(board: u64, d: Direction)
    ensures
        score_spec(move_spec(board, d)) >= score_spec(board),
{
    match d {
        Direction::Right => lemma_right_score(board),
        Direction::Left => lemma_left_score(board),
        Direction::Down => {
            let t = transpose_spec(board);
            lemma_right_score(t);
            lemma_transpose_score(move_right_spec(t));
            lemma_transpose_score(board);
        },
        Direction::Up => {
            let t = transpose_spec(board);
            lemma_left_score(t);
            lemma_transpose_score(move_left_spec(t));
            lemma_transpose_score(board);
        },
    }
}

} // verus!
