//! The move tables: for every 16-bit row, what each direction does to it and
//! what the row scores.
use vstd::prelude::*;

use crate::board::{cell, column_from_spec, COL_MASK};
use crate::row::{cells_of, reverse_row, slid, slide_high, slide_line, slide_low};

verus! {

/// Points for a cell of power `t`: `(t - 1) * 2^(t + 1)` for `t > 1`, else none.
pub open spec fn tile_score(t: u64) -> int {
    if t > 1 && t < 16 {
        (t - 1) * (2u64 << t)
    } else {
        0
    }
}

/// The score of a row: the points of its four cells.
pub open spec fn row_score(row: u64) -> int {
    let c = cells_of(row);
    tile_score(c[0]) + tile_score(c[1]) + tile_score(c[2]) + tile_score(c[3])
}

/// A cell's points stay under 2^20.
pub(crate) proof fn lemma_tile_score_bound(t: u64)
    requires
        t < 16,
    ensures
        0 <= tile_score(t) < 0x10_0000,
{
    if t > 1 {
        assert(2u64 << t <= 0x1_0000) by (bit_vector)
            requires
                t < 16,
        ;
        assert((t - 1) * (2u64 << t) <= 14 * 0x1_0000) by (nonlinear_arith)
            requires
                t < 16,
                2u64 << t <= 0x1_0000,
        ;
    }
}

/// Each row's score stays under 2^22.
pub proof fn lemma_row_score_bound(row: u64)
    ensures
        0 <= row_score(row) < 0x40_0000,
{
    let c = cells_of(row);
    assert(c[0] < 16 && c[1] < 16 && c[2] < 16 && c[3] < 16) by {
        assert((row & 0xF) < 16 && ((row >> 4) & 0xF) < 16 && ((row >> 8) & 0xF) < 16 && ((row
            >> 12) & 0xF) < 16) by (bit_vector);
    }
    lemma_tile_score_bound(c[0]);
    lemma_tile_score_bound(c[1]);
    lemma_tile_score_bound(c[2]);
    lemma_tile_score_bound(c[3]);
}

/// A reversed row is a 16-bit value.
proof fn lemma_reverse_row_bound(row: u64)
    ensures
        reverse_row(row) < 0x1_0000,
{
    assert(reverse_row(row) < 0x1_0000) by (bit_vector);
}

/// Reversing a row twice gives it back.
pub proof fn lemma_reverse_row_involution(row: u64)
    requires
        row < 0x1_0000,
    ensures
        reverse_row(row) < 0x1_0000,
        reverse_row(reverse_row(row)) == row,
{
    assert(reverse_row(row) < 0x1_0000 && reverse_row(reverse_row(row)) == row) by (bit_vector)
        requires
            row < 0x1_0000,
    ;
}

/// The tables that turn a move into four lookups.
///
/// Each direction's table maps a row to the XOR of the row before and after
/// the move; `left` and `right` hold row deltas, `up` and `down` hold the same
/// deltas spread into one column (see `column_from`).
pub struct Moves {
    pub left: Vec<u64>,
    pub right: Vec<u64>,
    pub down: Vec<u64>,
    pub up: Vec<u64>,
    pub scores: Vec<u64>,
}

impl Moves {
    /// Every table has an entry for each 16-bit row, and each entry is the
    /// delta (or score) of its row.
    pub open spec fn wf(&self) -> bool {
        &&& self.left@.len() == 0x1_0000
        &&& self.right@.len() == 0x1_0000
        &&& self.down@.len() == 0x1_0000
        &&& self.up@.len() == 0x1_0000
        &&& self.scores@.len() == 0x1_0000
        &&& forall|r: u64| r < 0x1_0000 ==> #[trigger] self.right@[r as int] == r ^ slide_low(r)
        &&& forall|r: u64| r < 0x1_0000 ==> #[trigger] self.left@[r as int] == r ^ slide_high(r)
        &&& forall|r: u64|
            r < 0x1_0000 ==> #[trigger] self.down@[r as int] == column_from_spec(r)
                ^ column_from_spec(slide_low(r))
        &&& forall|r: u64|
            r < 0x1_0000 ==> #[trigger] self.up@[r as int] == column_from_spec(r)
                ^ column_from_spec(slide_high(r))
        &&& forall|r: u64| r < 0x1_0000 ==> #[trigger] self.scores@[r as int] == row_score(r)
    }

    /// Spreads cell `k` of a row into the lowest cell of board row `k`.
    pub fn column_from(board: u64) -> (r: u64)
        ensures
            r == column_from_spec(board),
            r & !COL_MASK == 0,
            board < 0x1_0000 ==> {
                &&& cell(r, 0) == cell(board, 0)
                &&& cell(r, 4) == cell(board, 1)
                &&& cell(r, 8) == cell(board, 2)
                &&& cell(r, 12) == cell(board, 3)
            },
    {
        proof {
            assert(column_from_spec(board) & !COL_MASK == 0) by (bit_vector);
            assert(board < 0x1_0000 ==> {
                &&& cell(column_from_spec(board), 0) == cell(board, 0)
                &&& cell(column_from_spec(board), 4) == cell(board, 1)
                &&& cell(column_from_spec(board), 8) == cell(board, 2)
                &&& cell(column_from_spec(board), 12) == cell(board, 3)
            }) by (bit_vector);
        }
        (board | (board << 12) | (board << 24) | (board << 36)) & COL_MASK
    }

    /// Builds all tables in one pass over the rows: each row is slid once,
    /// and the mirrored row and result give the other direction.
    pub fn new() -> (m: Moves)
        ensures
            m.wf(),
    {
        let mut left_moves: Vec<u64> = vec![0; 65536];
        let mut right_moves: Vec<u64> = vec![0; 65536];
        let mut up_moves: Vec<u64> = vec![0; 65536];
        let mut down_moves: Vec<u64> = vec![0; 65536];
        let mut scores: Vec<u64> = vec![0; 65536];
        let mut row: u64 = 0;
        while row < 65536
            invariant
                row <= 0x1_0000,
                left_moves@.len() == 0x1_0000,
                right_moves@.len() == 0x1_0000,
                down_moves@.len() == 0x1_0000,
                up_moves@.len() == 0x1_0000,
                scores@.len() == 0x1_0000,
                forall|r: u64|
                    r < row ==> {
                        &&& #[trigger] right_moves@[r as int] == r ^ slide_low(r)
                        &&& down_moves@[r as int] == column_from_spec(r) ^ column_from_spec(
                            slide_low(r),
                        )
                        &&& scores@[r as int] == row_score(r)
                        &&& left_moves@[reverse_row(r) as int] == reverse_row(r) ^ slide_high(
                            reverse_row(r),
                        )
                        &&& up_moves@[reverse_row(r) as int] == column_from_spec(reverse_row(r))
                            ^ column_from_spec(slide_high(reverse_row(r)))
                    },
            decreases 0x1_0000 - row,
        {
            let mut line: Vec<u64> = vec![
                row & 0xF,
                (row >> 4) & 0xF,
                (row >> 8) & 0xF,
                (row >> 12) & 0xF,
            ];
            proof {
                assert(line@ =~= cells_of(row));
                assert((row & 0xF) < 16 && ((row >> 4) & 0xF) < 16 && ((row >> 8) & 0xF) < 16
                    && ((row >> 12) & 0xF) < 16) by (bit_vector);
                lemma_row_score_bound(row);
            }

            let mut s: u64 = 0;
            let mut k: usize = 0;
            while k < 4
                invariant
                    k <= 4,
                    line@ == cells_of(row),
                    forall|q: int| 0 <= q < 4 ==> line@[q] < 16,
                    s == (if k == 0 {
                        0int
                    } else if k == 1 {
                        tile_score(line@[0])
                    } else if k == 2 {
                        tile_score(line@[0]) + tile_score(line@[1])
                    } else if k == 3 {
                        tile_score(line@[0]) + tile_score(line@[1]) + tile_score(line@[2])
                    } else {
                        row_score(row)
                    }),
                decreases 4 - k,
            {
                let tile = line[k];
                proof {
                    lemma_tile_score_bound(tile);
                    lemma_tile_score_bound(line@[0]);
                    lemma_tile_score_bound(line@[1]);
                    lemma_tile_score_bound(line@[2]);
                }
                if tile > 1 {
                    assert(2u64 << tile <= 0x1_0000) by (bit_vector)
                        requires
                            tile < 16,
                    ;
                    assert((tile - 1) * (2u64 << tile) <= 14 * 0x1_0000) by (nonlinear_arith)
                        requires
                            tile < 16,
                            2u64 << tile <= 0x1_0000,
                    ;
                    s += (tile - 1) * (2 << tile);
                }
                k += 1;
            }
            scores.set(row as usize, s);

            slide_line(&mut line);
            let result = line[0] | (line[1] << 4) | (line[2] << 8) | (line[3] << 12);
            let rev_row = (row >> 12) & 0x000F | (row >> 4) & 0x00F0 | (row << 4) & 0x0F00
                | (row << 12) & 0xF000;
            let rev_res = (result >> 12) & 0x000F | (result >> 4) & 0x00F0 | (result << 4) & 0x0F00
                | (result << 12) & 0xF000;
            proof {
                assert(result == slide_low(row));
                lemma_reverse_row_involution(row);
                assert(rev_res == slide_high(rev_row));
            }

            let row_idx = row as usize;
            let rev_idx = rev_row as usize;

            let ghost (l0, r0, u0) = (left_moves@, right_moves@, up_moves@);
            right_moves.set(row_idx, row ^ result);
            left_moves.set(rev_idx, rev_row ^ rev_res);
            up_moves.set(rev_idx, Self::column_from(rev_row) ^ Self::column_from(rev_res));
            down_moves.set(row_idx, Self::column_from(row) ^ Self::column_from(result));
            proof {
                assert forall|r: u64| r < row + 1 implies {
                    &&& #[trigger] right_moves@[r as int] == r ^ slide_low(r)
                    &&& down_moves@[r as int] == column_from_spec(r) ^ column_from_spec(
                        slide_low(r),
                    )
                    &&& scores@[r as int] == row_score(r)
                    &&& left_moves@[reverse_row(r) as int] == reverse_row(r) ^ slide_high(
                        reverse_row(r),
                    )
                    &&& up_moves@[reverse_row(r) as int] == column_from_spec(reverse_row(r))
                        ^ column_from_spec(slide_high(reverse_row(r)))
                } by {
                    lemma_reverse_row_bound(r);
                    if r < row {
                        assert(r0[r as int] == r ^ slide_low(r));
                        assert(l0[reverse_row(r) as int] == reverse_row(r) ^ slide_high(
                            reverse_row(r),
                        ));
                        assert(u0[reverse_row(r) as int] == column_from_spec(reverse_row(r))
                            ^ column_from_spec(slide_high(reverse_row(r))));
                        if reverse_row(r) != rev_row {
                            assert(left_moves@[reverse_row(r) as int] == l0[reverse_row(r) as int]);
                            assert(up_moves@[reverse_row(r) as int] == u0[reverse_row(r) as int]);
                        }
                    }
                }
            }
            row += 1;
        }
        proof {
            assert forall|x: u64| x < 0x1_0000 implies #[trigger] down_moves@[x as int]
                == column_from_spec(x) ^ column_from_spec(slide_low(x)) by {
                assert(right_moves@[x as int] == x ^ slide_low(x));
            }
            assert forall|x: u64| x < 0x1_0000 implies #[trigger] scores@[x as int] == row_score(
                x,
            ) by {
                assert(right_moves@[x as int] == x ^ slide_low(x));
            }
            assert forall|x: u64| x < 0x1_0000 implies {
                &&& left_moves@[x as int] == x ^ slide_high(x)
                &&& up_moves@[x as int] == column_from_spec(x) ^ column_from_spec(slide_high(x))
            } by {
                lemma_reverse_row_involution(x);
                let r = reverse_row(x);
                assert(right_moves@[r as int] == r ^ slide_low(r));
            }
        }
        Moves { left: left_moves, right: right_moves, down: down_moves, up: up_moves, scores }
    }
}

} // verus!
