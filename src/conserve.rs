//! Which tiles a slide takes away and which it makes.
use vstd::prelude::*;
use vstd::multiset::Multiset;
use vstd::seq_lib::to_multiset_insert;

use crate::board::{row_of, transpose_spec};
use crate::game::{move_spec, Direction};
use crate::row::{
    cells_of, merge_power, merged, pad4, reverse_row, slid, slide_high, slide_low, tiles_from,
};

verus! {

/// The tiles that merging the run `s` takes away: both tiles of each merged
/// pair (pairs of 0xF tiles do not merge).
pub open spec fn merge_taken(s: Seq<u64>) -> Multiset<u64>
    decreases s.len(),
{
    if s.len() < 2 {
        Multiset::empty()
    } else if s[0] == s[1] && s[0] < 15 {
        merge_taken(s.subrange(2, s.len() as int)).insert(s[0]).insert(s[0])
    } else {
        merge_taken(s.drop_first())
    }
}

/// The tiles that merging the run `s` makes: one for each merged pair (pairs
/// of 0xF tiles do not merge).
pub open spec fn merge_made(s: Seq<u64>) -> Multiset<u64>
    decreases s.len(),
{
    if s.len() < 2 {
        Multiset::empty()
    } else if s[0] == s[1] && s[0] < 15 {
        merge_made(s.subrange(2, s.len() as int)).insert(merge_power(s[0]))
    } else {
        merge_made(s.drop_first())
    }
}

proof fn lemma_prepend_multiset(x: u64, t: Seq<u64>)
    ensures
        (seq![x] + t).to_multiset() == t.to_multiset().insert(x),
{
    assert(seq![x] + t =~= t.insert(0, x));
    to_multiset_insert(t, 0, x);
}

/// Merging a run keeps every tile but those of merged pairs, which give way
/// to the tiles the merges make.
pub proof fn lemma_merge_conserves(s: Seq<u64>)
    ensures
        merged(s).to_multiset().add(merge_taken(s)) == s.to_multiset().add(merge_made(s)),
    decreases s.len(),
{
    broadcast use vstd::multiset::group_multiset_axioms;

    if s.len() < 2 {
        assert(merged(s).to_multiset().add(merge_taken(s)) =~= s.to_multiset().add(merge_made(s)));
    } else if s[0] == s[1] && s[0] < 15 {
        let u = s.subrange(2, s.len() as int);
        lemma_merge_conserves(u);
        let a = s[0];
        assert(s =~= seq![a] + (seq![a] + u));
        lemma_prepend_multiset(a, seq![a] + u);
        lemma_prepend_multiset(a, u);
        lemma_prepend_multiset(merge_power(a), merged(u));
        assert(merged(s) == seq![merge_power(a)] + merged(u));
        assert(merged(s).to_multiset() == merged(u).to_multiset().insert(merge_power(a)));
        assert(s.to_multiset() == u.to_multiset().insert(a).insert(a));
        assert(merge_taken(s) == merge_taken(u).insert(a).insert(a));
        assert(merge_made(s) == merge_made(u).insert(merge_power(a)));
        assert forall|x: u64| #[trigger]
            merged(s).to_multiset().add(merge_taken(s)).count(x) == s.to_multiset().add(
                merge_made(s),
            ).count(x) by {
            assert(merged(u).to_multiset().add(merge_taken(u)).count(x) == u.to_multiset().add(
                merge_made(u),
            ).count(x));
        }
        assert(merged(s).to_multiset().add(merge_taken(s)) =~= s.to_multiset().add(merge_made(s)));
    } else {
        let u = s.drop_first();
        lemma_merge_conserves(u);
        assert(s =~= seq![s[0]] + u);
        lemma_prepend_multiset(s[0], u);
        lemma_prepend_multiset(s[0], merged(u));
        assert(merged(s) == seq![s[0]] + merged(u));
        assert(merge_taken(s) == merge_taken(u));
        assert(merge_made(s) == merge_made(u));
        assert forall|x: u64| #[trigger]
            merged(s).to_multiset().add(merge_taken(s)).count(x) == s.to_multiset().add(
                merge_made(s),
            ).count(x) by {
            assert(merged(u).to_multiset().add(merge_taken(u)).count(x) == u.to_multiset().add(
                merge_made(u),
            ).count(x));
        }
        assert(merged(s).to_multiset().add(merge_taken(s)) =~= s.to_multiset().add(merge_made(s)));
    }
}

proof fn lemma_merged_nonzero(s: Seq<u64>)
    requires
        forall|k: int| 0 <= k < s.len() ==> s[k] != 0,
    ensures
        forall|k: int| 0 <= k < merged(s).len() ==> merged(s)[k] != 0,
    decreases s.len(),
{
    if s.len() >= 2 {
        let m = merged(s);
        let u = if s[0] == s[1] && s[0] < 15 {
            s.subrange(2, s.len() as int)
        } else {
            s.drop_first()
        };
        lemma_merged_nonzero(u);
        assert forall|k: int| 0 <= k < m.len() implies m[k] != 0 by {
            if k > 0 {
                assert(m[k] == merged(u)[k - 1]);
            }
        }
    }
}

proof fn lemma_tiles_nonzero(line: Seq<u64>, i: int)
    ensures
        forall|k: int| 0 <= k < tiles_from(line, i).len() ==> tiles_from(line, i)[k] != 0,
    decreases line.len() - i,
{
    if 0 <= i < line.len() {
        lemma_tiles_nonzero(line, i + 1);
        let t = tiles_from(line, i);
        if line[i] != 0 {
            assert forall|k: int| 0 <= k < t.len() implies t[k] != 0 by {
                if k > 0 {
                    assert(t[k] == tiles_from(line, i + 1)[k - 1]);
                }
            }
        }
    }
}

/// Tiles packed to the front and padded with empty cells are found again.
proof fn lemma_tiles_pad(m: Seq<u64>, i: int)
    requires
        m.len() <= 4,
        0 <= i <= m.len(),
        forall|k: int| 0 <= k < m.len() ==> m[k] != 0,
    ensures
        tiles_from(pad4(m), i) == m.subrange(i, m.len() as int),
    decreases m.len() - i,
{
    let p = pad4(m);
    if i == m.len() {
        crate::row::lemma_tiles_skip(p, i, 4);
        assert(tiles_from(p, 4) == Seq::<u64>::empty());
        assert(m.subrange(i, m.len() as int) =~= Seq::<u64>::empty());
    } else {
        lemma_tiles_pad(m, i + 1);
        assert(m.subrange(i, m.len() as int) =~= seq![m[i]] + m.subrange(i + 1, m.len() as int));
    }
}

/// Sliding a row towards its lowest cell keeps its tiles but those of merged
/// pairs, which give way to the tiles the merges make.
proof fn lemma_slide_low_conserves(row: u64)
    ensures
        ({
            let before = tiles_from(cells_of(row), 0);
            let after = tiles_from(cells_of(slide_low(row)), 0);
            after.to_multiset().add(merge_taken(before)) == before.to_multiset().add(
                merge_made(before),
            )
        }),
{
    let c = cells_of(row);
    let t = tiles_from(c, 0);
    assert((row & 0xF) < 16 && ((row >> 4) & 0xF) < 16 && ((row >> 8) & 0xF) < 16 && ((row >> 12)
        & 0xF) < 16) by (bit_vector);
    crate::row::lemma_tiles_small(c, 0);
    crate::row::lemma_merged_small(t);
    crate::row::lemma_tiles_len(c, 0);
    crate::row::lemma_merged_len(t);
    lemma_tiles_nonzero(c, 0);
    lemma_merged_nonzero(t);
    crate::score::lemma_pack_cells(slid(c));
    lemma_tiles_pad(merged(t), 0);
    assert(merged(t).subrange(0, merged(t).len() as int) =~= merged(t));
    lemma_merge_conserves(t);
}

/// The tiles of a row, as a multiset.
pub open spec fn row_tiles(row: u64) -> Multiset<u64> {
    tiles_from(cells_of(row), 0).to_multiset()
}

/// Line `k` along direction `d`: row `k` for left and right, column `k` for up and down.
pub open spec fn line_of(board: u64, d: Direction, k: u64) -> u64 {
    match d {
        Direction::Left | Direction::Right => row_of(board, k),
        Direction::Up | Direction::Down => row_of(transpose_spec(board), k),
    }
}

/// The tiles of line `k` in the order a move along `d` merges them, the
/// first to move first.
pub open spec fn run_of(board: u64, d: Direction, k: u64) -> Seq<u64> {
    match d {
        Direction::Right | Direction::Down => tiles_from(cells_of(line_of(board, d, k)), 0),
        Direction::Left | Direction::Up => tiles_from(
            cells_of(reverse_row(line_of(board, d, k))),
            0,
        ),
    }
}

/// A cell's contribution to the multiset of tiles: nothing if it is empty.
pub open spec fn tile_of(v: u64) -> Multiset<u64> {
    if v == 0 {
        Multiset::empty()
    } else {
        Multiset::singleton(v)
    }
}

proof fn lemma_tiles_step(line: Seq<u64>, i: int)
    requires
        0 <= i < line.len(),
    ensures
        tiles_from(line, i).to_multiset() == tiles_from(line, i + 1).to_multiset().add(
            tile_of(line[i]),
        ),
{
    broadcast use vstd::multiset::group_multiset_axioms;

    let u = tiles_from(line, i + 1);
    if line[i] != 0 {
        lemma_prepend_multiset(line[i], u);
        assert(u.to_multiset().insert(line[i]) =~= u.to_multiset().add(tile_of(line[i])));
    } else {
        assert(u.to_multiset() =~= u.to_multiset().add(tile_of(line[i])));
    }
}

/// The tiles of a row are the tiles of its four cells.
proof fn lemma_row_tiles(row: u64)
    ensures
        row_tiles(row) == tiles_from(cells_of(row), 4).to_multiset().add(
            tile_of(cells_of(row)[0]),
        ).add(tile_of(cells_of(row)[1])).add(tile_of(cells_of(row)[2])).add(
            tile_of(cells_of(row)[3]),
        ),
{
    broadcast use vstd::multiset::group_multiset_axioms;

    let c = cells_of(row);
    lemma_tiles_step(c, 0);
    lemma_tiles_step(c, 1);
    lemma_tiles_step(c, 2);
    lemma_tiles_step(c, 3);
    let e = tiles_from(c, 4).to_multiset();
    assert(row_tiles(row) =~= e.add(tile_of(c[0])).add(tile_of(c[1])).add(tile_of(c[2])).add(
        tile_of(c[3]),
    ));
}

/// Reversing a row keeps its tiles.
proof fn lemma_reverse_tiles(row: u64)
    ensures
        row_tiles(reverse_row(row)) == row_tiles(row),
{
    broadcast use vstd::multiset::group_multiset_axioms;

    assert({
        let r = reverse_row(row);
        &&& r & 0xF == (row >> 12u64) & 0xF
        &&& (r >> 4u64) & 0xF == (row >> 8u64) & 0xF
        &&& (r >> 8u64) & 0xF == (row >> 4u64) & 0xF
        &&& (r >> 12u64) & 0xF == row & 0xF
    }) by (bit_vector);
    let r = reverse_row(row);
    lemma_row_tiles(row);
    lemma_row_tiles(r);
    assert(tiles_from(cells_of(row), 4) == tiles_from(cells_of(r), 4));
    assert(row_tiles(r) =~= row_tiles(row));
}

/// Sliding a row towards its highest cell keeps its tiles but those of merged
/// pairs, which give way to the tiles the merges make.
proof fn lemma_slide_high_conserves(row: u64)
    ensures
        ({
            let before = tiles_from(cells_of(reverse_row(row)), 0);
            row_tiles(slide_high(row)).add(merge_taken(before)) == row_tiles(row).add(
                merge_made(before),
            )
        }),
{
    let x = slide_low(reverse_row(row));
    lemma_slide_low_conserves(reverse_row(row));
    lemma_reverse_tiles(x);
    lemma_reverse_tiles(row);
}

/// Every move keeps, in every line along it, the tiles that are not merged;
/// each merged pair gives way to the one tile it makes. No tile appears or
/// vanishes otherwise.
pub proof fn lemma_move_conserves(board: u64, d: Direction, k: u64)
    requires
        k < 4,
    ensures
        row_tiles(line_of(move_spec(board, d), d, k)).add(merge_taken(run_of(board, d, k)))
            == row_tiles(line_of(board, d, k)).add(merge_made(run_of(board, d, k))),
{
    let t = transpose_spec(board);
    crate::board::lemma_transpose_involution(board);
    crate::game::lemma_slide_bounds(board);
    crate::game::lemma_slide_bounds(t);
    match d {
        Direction::Right => {
            let b = board;
            crate::score::lemma_rows_of(
                slide_low(row_of(b, 0)),
                slide_low(row_of(b, 1)),
                slide_low(row_of(b, 2)),
                slide_low(row_of(b, 3)),
            );
            lemma_rows_pick(b, k);
            lemma_slide_low_conserves(row_of(b, k));
        },
        Direction::Left => {
            let b = board;
            crate::score::lemma_rows_of(
                slide_high(row_of(b, 0)),
                slide_high(row_of(b, 1)),
                slide_high(row_of(b, 2)),
                slide_high(row_of(b, 3)),
            );
            lemma_rows_pick(b, k);
            lemma_slide_high_conserves(row_of(b, k));
        },
        Direction::Down => {
            let m = crate::game::move_right_spec(t);
            crate::board::lemma_transpose_involution(m);
            crate::score::lemma_rows_of(
                slide_low(row_of(t, 0)),
                slide_low(row_of(t, 1)),
                slide_low(row_of(t, 2)),
                slide_low(row_of(t, 3)),
            );
            lemma_rows_pick(t, k);
            lemma_slide_low_conserves(row_of(t, k));
        },
        Direction::Up => {
            let m = crate::game::move_left_spec(t);
            crate::board::lemma_transpose_involution(m);
            crate::score::lemma_rows_of(
                slide_high(row_of(t, 0)),
                slide_high(row_of(t, 1)),
                slide_high(row_of(t, 2)),
                slide_high(row_of(t, 3)),
            );
            lemma_rows_pick(t, k);
            lemma_slide_high_conserves(row_of(t, k));
        },
    }
}

/// Row `k` is one of the four rows.
proof fn lemma_rows_pick(b: u64, k: u64)
    requires
        k < 4,
    ensures
        row_of(b, k) == row_of(b, 0) || row_of(b, k) == row_of(b, 1) || row_of(b, k) == row_of(b, 2)
            || row_of(b, k) == row_of(b, 3),
        k == 0 ==> row_of(b, k) == row_of(b, 0),
        k == 1 ==> row_of(b, k) == row_of(b, 1),
        k == 2 ==> row_of(b, k) == row_of(b, 2),
        k == 3 ==> row_of(b, k) == row_of(b, 3),
{
}

} // verus!
