//! Playing one game: the moves on a packed board, its score, and spawning tiles.
use vstd::prelude::*;

use crate::board::{cell, column_from_spec, from_rows, row_of, transpose_spec, ROW_MASK};
use crate::moves::{row_score, Moves};
use crate::row::{slide_high, slide_low};

verus! {

/// A move on the board.
#[derive(Clone, Copy, PartialEq, Eq, Debug)]
pub enum Direction {
    Left,
    Right,
    Up,
    Down,
}

/// The board after moving right: each row slid towards its lowest cell.
pub open spec fn move_right_spec(board: u64) -> u64 {
    from_rows(
        slide_low(row_of(board, 0)),
        slide_low(row_of(board, 1)),
        slide_low(row_of(board, 2)),
        slide_low(row_of(board, 3)),
    )
}

/// The board after moving left: each row slid towards its highest cell.
pub open spec fn move_left_spec(board: u64) -> u64 {
    from_rows(
        slide_high(row_of(board, 0)),
        slide_high(row_of(board, 1)),
        slide_high(row_of(board, 2)),
        slide_high(row_of(board, 3)),
    )
}

/// The board after moving up: each column slid towards the top row.
pub open spec fn move_up_spec(board: u64) -> u64 {
    transpose_spec(move_left_spec(transpose_spec(board)))
}

/// The board after moving down: each column slid towards the bottom row.
pub open spec fn move_down_spec(board: u64) -> u64 {
    transpose_spec(move_right_spec(transpose_spec(board)))
}

/// The board after one move.
pub open spec fn move_spec(board: u64, d: Direction) -> u64 {
    match d {
        Direction::Left => move_left_spec(board),
        Direction::Right => move_right_spec(board),
        Direction::Up => move_up_spec(board),
        Direction::Down => move_down_spec(board),
    }
}

/// The board after the moves of `dirs`, first to last.
pub open spec fn apply_spec(board: u64, dirs: Seq<Direction>) -> u64
    decreases dirs.len(),
{
    if dirs.len() == 0 {
        board
    } else {
        move_spec(apply_spec(board, dirs.drop_last()), dirs.last())
    }
}

/// The score of a board: the scores of its four rows.
pub open spec fn score_spec(board: u64) -> int {
    row_score(row_of(board, 0)) + row_score(row_of(board, 1)) + row_score(row_of(board, 2))
        + row_score(row_of(board, 3))
}

/// How many of the first `n` cells of a board are empty.
pub open spec fn empty_count(board: u64, n: nat) -> nat
    decreases n,
{
    if n == 0 {
        0
    } else {
        empty_count(board, (n - 1) as nat) + if cell(board, (n - 1) as u64) == 0 {
            1nat
        } else {
            0nat
        }
    }
}

/// A move's rows, stored back as a board, are the packed result of the row deltas.
proof fn lemma_row_deltas(b: u64, s0: u64, s1: u64, s2: u64, s3: u64)
    requires
        s0 < 0x1_0000,
        s1 < 0x1_0000,
        s2 < 0x1_0000,
        s3 < 0x1_0000,
    ensures
        b ^ (row_of(b, 0) ^ s0) ^ ((row_of(b, 1) ^ s1) << 16u64) ^ ((row_of(b, 2) ^ s2) << 32u64)
            ^ ((row_of(b, 3) ^ s3) << 48u64) == from_rows(s0, s1, s2, s3),
{
    assert(b ^ (((b >> 0u64) & 0xFFFF) ^ s0) ^ ((((b >> 16u64) & 0xFFFF) ^ s1) << 16u64) ^ ((((b
        >> 32u64) & 0xFFFF) ^ s2) << 32u64) ^ ((((b >> 48u64) & 0xFFFF) ^ s3) << 48u64) == s0 | (s1
        << 16u64) | (s2 << 32u64) | (s3 << 48u64)) by (bit_vector)
        requires
            s0 < 0x1_0000,
            s1 < 0x1_0000,
            s2 < 0x1_0000,
            s3 < 0x1_0000,
    ;
}

/// The column deltas of a vertical move, applied to the board, give the
/// transposed result of the same move on the transposed board.
proof fn lemma_column_deltas(b: u64, h0: u64, h1: u64, h2: u64, h3: u64)
    requires
        h0 < 0x1_0000,
        h1 < 0x1_0000,
        h2 < 0x1_0000,
        h3 < 0x1_0000,
    ensures
        ({
            let t = transpose_spec(b);
            b ^ (column_from_spec(row_of(t, 0)) ^ column_from_spec(h0)) ^ ((column_from_spec(
                row_of(t, 1),
            ) ^ column_from_spec(h1)) << 4u64) ^ ((column_from_spec(row_of(t, 2))
                ^ column_from_spec(h2)) << 8u64) ^ ((column_from_spec(row_of(t, 3))
                ^ column_from_spec(h3)) << 12u64) == transpose_spec(from_rows(h0, h1, h2, h3))
        }),
{
    let t = transpose_spec(b);
    let (a0, a1, a2, a3) = (
        column_from_spec(row_of(t, 0)),
        column_from_spec(row_of(t, 1)),
        column_from_spec(row_of(t, 2)),
        column_from_spec(row_of(t, 3)),
    );
    let (c0, c1, c2, c3) = (
        column_from_spec(h0),
        column_from_spec(h1),
        column_from_spec(h2),
        column_from_spec(h3),
    );
    assert(b == column_from_spec(row_of(transpose_spec(b), 0)) ^ (column_from_spec(
        row_of(transpose_spec(b), 1),
    ) << 4u64) ^ (column_from_spec(row_of(transpose_spec(b), 2)) << 8u64) ^ (column_from_spec(
        row_of(transpose_spec(b), 3),
    ) << 12u64)) by (bit_vector);
    assert(transpose_spec(from_rows(h0, h1, h2, h3)) == column_from_spec(h0) ^ (column_from_spec(h1)
        << 4u64) ^ (column_from_spec(h2) << 8u64) ^ (column_from_spec(h3) << 12u64))
        by (bit_vector)
        requires
            h0 < 0x1_0000,
            h1 < 0x1_0000,
            h2 < 0x1_0000,
            h3 < 0x1_0000,
    ;
    assert(b == a0 ^ (a1 << 4u64) ^ (a2 << 8u64) ^ (a3 << 12u64) ==> b ^ (a0 ^ c0) ^ ((a1 ^ c1)
        << 4u64) ^ ((a2 ^ c2) << 8u64) ^ ((a3 ^ c3) << 12u64) == c0 ^ (c1 << 4u64) ^ (c2 << 8u64)
        ^ (c3 << 12u64)) by (bit_vector);
}

/// Rows of a board are 16-bit values.
proof fn lemma_row_bound(b: u64)
    ensures
        row_of(b, 0) < 0x1_0000,
        row_of(b, 1) < 0x1_0000,
        row_of(b, 2) < 0x1_0000,
        row_of(b, 3) < 0x1_0000,
        row_of(b, 0) == b & ROW_MASK,
        row_of(b, 1) == (b >> 16) & ROW_MASK,
        row_of(b, 2) == (b >> 32) & ROW_MASK,
        row_of(b, 3) == (b >> 48) & ROW_MASK,
{
    assert(((b >> 0u64) & 0xFFFF) < 0x1_0000 && ((b >> 16u64) & 0xFFFF) < 0x1_0000 && ((b
        >> 32u64) & 0xFFFF) < 0x1_0000 && ((b >> 48u64) & 0xFFFF) < 0x1_0000 && (b >> 0u64)
        & 0xFFFF == b & 0xFFFF) by (bit_vector);
}

/// The power code of a spawned tile for a roll drawn from `[0, 10)`: `2`
/// (a 4) when the roll is 10, else `1` (a 2). A roll from that range is never
/// 10, so every spawned tile is a 2.
pub open spec fn tile_spec(roll: u32) -> u64 {
    if roll == 10 {
        2
    } else {
        1
    }
}

/// The cell that holds the `index`-th empty cell of a board, counting from cell 0.
pub open spec fn spawn_cell(board: u64, index: nat) -> u64 {
    choose|p: u64| p < 16 && cell(board, p) == 0 && empty_count(board, p as nat) == index
}

/// What spawning adds to a board: the tile for `roll` in its `index`-th empty cell.
pub open spec fn spawn_delta(board: u64, index: nat, roll: u32) -> u64 {
    tile_spec(roll) << (4 * spawn_cell(board, index))
}

/// The draws that one spawn needs: which empty cell, counted from cell 0 and
/// drawn from `[0, empty cells)`, and the roll from `[0, 10)` that picks the tile.
#[derive(Clone, Copy, PartialEq, Eq, Debug)]
pub struct Spawn {
    pub index: u32,
    pub roll: u32,
}

/// Empty cells up to `q` are at least those up to `p`, plus one if cell `p` is empty.
proof fn lemma_empty_count_grows(board: u64, p: nat, q: nat)
    requires
        p < q,
    ensures
        empty_count(board, q) >= empty_count(board, p) + if cell(board, p as u64) == 0 {
            1nat
        } else {
            0nat
        },
    decreases q - p,
{
    if q > p + 1 {
        lemma_empty_count_grows(board, p, (q - 1) as nat);
    }
}

/// The `index`-th empty cell exists and is the only cell with that count.
proof fn lemma_spawn_cell(board: u64, index: nat, p: u64)
    requires
        p < 16,
        cell(board, p) == 0,
        empty_count(board, p as nat) == index,
    ensures
        spawn_cell(board, index) == p,
{
    let q = spawn_cell(board, index);
    assert(q < 16 && cell(board, q) == 0 && empty_count(board, q as nat) == index);
    if q < p {
        lemma_empty_count_grows(board, q as nat, p as nat);
    } else if p < q {
        lemma_empty_count_grows(board, p as nat, q as nat);
    }
}

/// Shifting by one more cell.
proof fn lemma_shift_step(x: u64, t: u64, p: u64)
    requires
        p < 15,
    ensures
        (x >> (4 * p) as u64) >> 4u64 == x >> (4 * (p + 1)) as u64,
        (t << (4 * p) as u64) << 4u64 == t << (4 * (p + 1)) as u64,
        (x >> (4 * p) as u64) & 0xF == cell(x, p),
{
    assert((x >> (4 * p) as u64) >> 4u64 == x >> (4 * (p + 1)) as u64 && (t << (4 * p) as u64)
        << 4u64 == t << (4 * (p + 1)) as u64) by (bit_vector)
        requires
            p < 15,
    ;
}

/// Or-ing a small tile into cell `p` changes cell `p` only.
proof fn lemma_put_cell(board: u64, t: u64, p: u64, k: u64)
    requires
        0 < t < 16,
        p < 16,
        k < 16,
        cell(board, p) == 0,
    ensures
        k == p ==> cell(board | (t << (4 * p) as u64), k) == t,
        k != p ==> cell(board | (t << (4 * p) as u64), k) == cell(board, k),
{
    assert(((board >> (4 * p) as u64) & 0xF) == 0 ==> (k == p ==> ((board | (t << (4 * p) as u64))
        >> (4 * k) as u64) & 0xF == t) && (k != p ==> ((board | (t << (4 * p) as u64)) >> (4
        * k) as u64) & 0xF == (board >> (4 * k) as u64) & 0xF)) by (bit_vector)
        requires
            0 < t < 16,
            p < 16,
            k < 16,
    ;
}

/// Filling one empty cell leaves one empty cell fewer.
proof fn lemma_put_count(board: u64, t: u64, p: u64, n: nat)
    requires
        0 < t < 16,
        p < 16,
        n <= 16,
        cell(board, p) == 0,
    ensures
        empty_count(board | (t << (4 * p) as u64), n) + (if p < n {
            1nat
        } else {
            0nat
        }) == empty_count(board, n),
    decreases n,
{
    if n > 0 {
        lemma_put_count(board, t, p, (n - 1) as nat);
        lemma_put_cell(board, t, p, (n - 1) as u64);
    }
}

/// Spawning a tile fills exactly one empty cell.
pub proof fn lemma_spawn_count(board: u64, index: nat, roll: u32)
    requires
        index < empty_count(board, 16),
    ensures
        empty_count(board | spawn_delta(board, index, roll), 16) + 1 == empty_count(board, 16),
{
    let p = spawn_cell(board, index);
    lemma_spawn_exists(board, index);
    lemma_put_count(board, tile_spec(roll), p, 16);
}

/// Every index under the number of empty cells names an empty cell.
pub proof fn lemma_spawn_exists(board: u64, index: nat)
    requires
        index < empty_count(board, 16),
    ensures
        spawn_cell(board, index) < 16,
        cell(board, spawn_cell(board, index)) == 0,
        empty_count(board, spawn_cell(board, index) as nat) == index,
{
    let p = lemma_find_empty(board, index, 16);
    lemma_spawn_cell(board, index, p);
}

/// Finds the `index`-th empty cell among the first `n`.
proof fn lemma_find_empty(board: u64, index: nat, n: nat) -> (p: u64)
    requires
        n <= 16,
        index < empty_count(board, n),
    ensures
        p < n,
        cell(board, p) == 0,
        empty_count(board, p as nat) == index,
    decreases n,
{
    if index < empty_count(board, (n - 1) as nat) {
        lemma_find_empty(board, index, (n - 1) as nat)
    } else {
        (n - 1) as u64
    }
}

/// The empty board has sixteen empty cells.
proof fn lemma_empty_board(n: nat)
    requires
        n <= 16,
    ensures
        empty_count(0, n) == n,
    decreases n,
{
    if n > 0 {
        lemma_empty_board((n - 1) as nat);
        let k = (n - 1) as u64;
        assert((0u64 >> (4 * k) as u64) & 0xF == 0) by (bit_vector);
    }
}

/// A game in play: the board and the seed its tiles are drawn with.
pub struct Game {
    pub board: u64,
    pub seed: u32,
}

impl Game {
    /// Returns the board with its rows turned into columns.
    pub fn transpose(board: u64) -> (r: u64)
        ensures
            r == transpose_spec(board),
            forall|i: u64, j: u64|
                i < 4 && j < 4 ==> #[trigger] cell(r, (4 * i + j) as u64) == cell(
                    board,
                    (4 * j + i) as u64,
                ),
    {
        let a1 = board & 0xF0F0_0F0F_F0F0_0F0F_u64;
        let a2 = board & 0x0000_F0F0_0000_F0F0_u64;
        let a3 = board & 0x0F0F_0000_0F0F_0000_u64;

        let a = a1 | (a2 << 12) | (a3 >> 12);

        let b1 = a & 0xFF00_FF00_00FF_00FF_u64;
        let b2 = a & 0x00FF_00FF_0000_0000_u64;
        let b3 = a & 0x0000_0000_FF00_FF00_u64;

        let r = b1 | (b2 >> 24) | (b3 << 24);
        proof {
            assert(r == transpose_spec(board));
            crate::board::lemma_transpose_cells(board);
        }
        r
    }

    /// Returns the board moved right.
    pub fn move_right(moves: &Moves, board: u64) -> (r: u64)
        requires
            moves.wf(),
        ensures
            r == move_right_spec(board),
    {
        proof {
            lemma_row_bound(board);
            lemma_slide_bounds(board);
        }
        let mut result: u64 = board;
        result ^= moves.right[((board) & ROW_MASK) as usize];
        result ^= moves.right[((board >> 16) & ROW_MASK) as usize] << 16;
        result ^= moves.right[((board >> 32) & ROW_MASK) as usize] << 32;
        result ^= moves.right[((board >> 48) & ROW_MASK) as usize] << 48;
        proof {
            lemma_row_deltas(
                board,
                slide_low(row_of(board, 0)),
                slide_low(row_of(board, 1)),
                slide_low(row_of(board, 2)),
                slide_low(row_of(board, 3)),
            );
        }
        result
    }

    /// Returns the board moved left.
    pub fn move_left(moves: &Moves, board: u64) -> (r: u64)
        requires
            moves.wf(),
        ensures
            r == move_left_spec(board),
    {
        proof {
            lemma_row_bound(board);
            lemma_slide_bounds(board);
        }
        let mut result: u64 = board;
        result ^= moves.left[((board) & ROW_MASK) as usize];
        result ^= moves.left[((board >> 16) & ROW_MASK) as usize] << 16;
        result ^= moves.left[((board >> 32) & ROW_MASK) as usize] << 32;
        result ^= moves.left[((board >> 48) & ROW_MASK) as usize] << 48;
        proof {
            lemma_row_deltas(
                board,
                slide_high(row_of(board, 0)),
                slide_high(row_of(board, 1)),
                slide_high(row_of(board, 2)),
                slide_high(row_of(board, 3)),
            );
        }
        result
    }

    /// Returns the board moved up.
    pub fn move_up(moves: &Moves, board: u64) -> (r: u64)
        requires
            moves.wf(),
        ensures
            r == move_up_spec(board),
    {
        let mut result: u64 = board;
        let transposed = Self::transpose(board);
        proof {
            lemma_row_bound(transposed);
            lemma_slide_bounds(transposed);
        }
        result ^= moves.up[((transposed) & ROW_MASK) as usize];
        result ^= moves.up[((transposed >> 16) & ROW_MASK) as usize] << 4;
        result ^= moves.up[((transposed >> 32) & ROW_MASK) as usize] << 8;
        result ^= moves.up[((transposed >> 48) & ROW_MASK) as usize] << 12;
        proof {
            lemma_column_deltas(
                board,
                slide_high(row_of(transposed, 0)),
                slide_high(row_of(transposed, 1)),
                slide_high(row_of(transposed, 2)),
                slide_high(row_of(transposed, 3)),
            );
        }
        result
    }

    /// Returns the board moved down.
    pub fn move_down(moves: &Moves, board: u64) -> (r: u64)
        requires
            moves.wf(),
        ensures
            r == move_down_spec(board),
    {
        let mut result: u64 = board;
        let transposed = Self::transpose(board);
        proof {
            lemma_row_bound(transposed);
            lemma_slide_bounds(transposed);
        }
        result ^= moves.down[((transposed) & ROW_MASK) as usize];
        result ^= moves.down[((transposed >> 16) & ROW_MASK) as usize] << 4;
        result ^= moves.down[((transposed >> 32) & ROW_MASK) as usize] << 8;
        result ^= moves.down[((transposed >> 48) & ROW_MASK) as usize] << 12;
        proof {
            lemma_column_deltas(
                board,
                slide_low(row_of(transposed, 0)),
                slide_low(row_of(transposed, 1)),
                slide_low(row_of(transposed, 2)),
                slide_low(row_of(transposed, 3)),
            );
        }
        result
    }
}

impl Game {
    /// Returns how many of the sixteen cells are empty.
    pub fn count_empty(board: u64) -> (r: u32)
        ensures
            r == empty_count(board, 16),
    {
        let mut empty: u32 = 0;
        let mut i: u64 = 0;
        while i < 16
            invariant
                i <= 16,
                empty == empty_count(board, i as nat),
                empty <= i,
            decreases 16 - i,
        {
            if ((board >> (i * 4)) & 0xF) == 0 {
                empty += 1;
            }
            i += 1;
        }
        empty
    }

    /// Returns the sum of the entries of `table` for the four rows of `board`.
    pub fn table_helper(board: u64, table: &[u64]) -> (r: u64)
        requires
            table@.len() >= 0x1_0000,
            table@[row_of(board, 0) as int] + table@[row_of(board, 1) as int] + table@[row_of(
                board,
                2,
            ) as int] + table@[row_of(board, 3) as int] <= u64::MAX,
        ensures
            r == table@[row_of(board, 0) as int] + table@[row_of(board, 1) as int] + table@[row_of(
                board,
                2,
            ) as int] + table@[row_of(board, 3) as int],
    {
        proof {
            lemma_row_bound(board);
        }
        table[((board) & ROW_MASK) as usize] + table[((board >> 16) & ROW_MASK) as usize]
            + table[((board >> 32) & ROW_MASK) as usize] + table[((board >> 48) & ROW_MASK) as usize]
    }

    /// Returns the score of a board: the points of all its tiles.
    pub fn score(moves: &Moves, board: u64) -> (r: u64)
        requires
            moves.wf(),
        ensures
            r == score_spec(board),
    {
        proof {
            lemma_row_bound(board);
            crate::moves::lemma_row_score_bound(row_of(board, 0));
            crate::moves::lemma_row_score_bound(row_of(board, 1));
            crate::moves::lemma_row_score_bound(row_of(board, 2));
            crate::moves::lemma_row_score_bound(row_of(board, 3));
            assert(moves.scores@[row_of(board, 0) as int] == row_score(row_of(board, 0)));
            assert(moves.scores@[row_of(board, 1) as int] == row_score(row_of(board, 1)));
            assert(moves.scores@[row_of(board, 2) as int] == row_score(row_of(board, 2)));
            assert(moves.scores@[row_of(board, 3) as int] == row_score(row_of(board, 3)));
        }
        Self::table_helper(board, moves.scores.as_slice())
    }
}

impl Game {
    /// Returns the power code of the tile to spawn for `roll`, drawn from `[0, 10)`.
    pub fn tile(roll: u32) -> (r: u64)
        ensures
            r == tile_spec(roll),
    {
        if roll == 10 {
            2
        } else {
            1
        }
    }

    /// Returns the tile for `roll` shifted into the `index`-th empty cell of
    /// `board`; OR it into the board to spawn the tile.
    pub fn spawn_tile(board: u64, index: u32, roll: u32) -> (r: u64)
        requires
            index < empty_count(board, 16),
        ensures
            r == spawn_delta(board, index as nat, roll),
            spawn_cell(board, index as nat) < 16,
            cell(board, spawn_cell(board, index as nat)) == 0,
    {
        let mut tmp = board;
        let mut idx = index;
        let mut t = Self::tile(roll);
        let ghost t0 = t;
        let ghost mut p: u64 = 0;
        assert(board >> 0u64 == board && t << 0u64 == t) by (bit_vector);
        loop
            invariant
                p <= 16,
                tmp == board >> (4 * p) as u64,
                t == t0 << (4 * p) as u64,
                idx + empty_count(board, p as nat) == index,
                index < empty_count(board, 16),
            ensures
                p < 16,
                cell(board, p) == 0,
                empty_count(board, p as nat) == index,
                t == t0 << (4 * p) as u64,
            decreases 16 - p,
        {
            let ghost p_start = p;
            while (tmp & 0xF) != 0
                invariant
                    p_start <= p <= 16,
                    tmp == board >> (4 * p) as u64,
                    t == t0 << (4 * p) as u64,
                    idx + empty_count(board, p as nat) == index,
                    index < empty_count(board, 16),
                decreases 16 - p,
            {
                proof {
                    assert(p < 16);
                    assert((board >> (4 * p) as u64) & 0xF == cell(board, p));
                    assert(empty_count(board, (p + 1) as nat) == empty_count(board, p as nat));
                    lemma_shift_step(board, t0, p);
                }
                tmp >>= 4;
                t <<= 4;
                proof {
                    p = (p + 1) as u64;
                }
            }
            proof {
                assert(p < 16);
                assert((board >> (4 * p) as u64) & 0xF == cell(board, p));
            }
            if idx == 0 {
                break;
            } else {
                idx -= 1
            }
            proof {
                assert(empty_count(board, (p + 1) as nat) == empty_count(board, p as nat) + 1);
                lemma_shift_step(board, t0, p);
            }
            tmp >>= 4;
            t <<= 4;
            proof {
                p = (p + 1) as u64;
            }
        }
        proof {
            lemma_spawn_cell(board, index as nat, p);
        }
        t
    }
}

impl Game {
    /// Starts a game with `seed` on a board holding two spawned tiles: `first`
    /// on the empty board, then `second` on the result.
    pub fn new(seed: u32, first: Spawn, second: Spawn) -> (g: Game)
        requires
            first.index < 16,
            second.index < 15,
        ensures
            g.seed == seed,
            g.board == spawn_delta(0, first.index as nat, first.roll) | spawn_delta(
                spawn_delta(0, first.index as nat, first.roll),
                second.index as nat,
                second.roll,
            ),
    {
        let mut game = Game { board: 0x0000_0000_0000_0000_u64, seed };
        proof {
            lemma_empty_board(16);
            lemma_spawn_count(0, first.index as nat, first.roll);
            assert(0u64 | spawn_delta(0, first.index as nat, first.roll) == spawn_delta(
                0,
                first.index as nat,
                first.roll,
            )) by (bit_vector);
        }
        game.board = game.board | Self::spawn_tile(game.board, first.index, first.roll);
        game.board = game.board | Self::spawn_tile(game.board, second.index, second.roll);
        game
    }

    /// Returns `board` after the moves of `directions`, first to last.
    pub fn apply_moves(moves: &Moves, board: u64, directions: &[Direction]) -> (r: u64)
        requires
            moves.wf(),
        ensures
            r == apply_spec(board, directions@),
    {
        let mut current_board = board;
        let mut i: usize = 0;
        while i < directions.len()
            invariant
                moves.wf(),
                i <= directions@.len(),
                current_board == apply_spec(board, directions@.subrange(0, i as int)),
            decreases directions@.len() - i,
        {
            proof {
                assert(directions@.subrange(0, i + 1).drop_last() =~= directions@.subrange(0, i as int));
            }
            current_board = match directions[i] {
                Direction::Left => Self::move_left(moves, current_board),
                Direction::Right => Self::move_right(moves, current_board),
                Direction::Down => Self::move_down(moves, current_board),
                Direction::Up => Self::move_up(moves, current_board),
            };
            i += 1;
        }
        proof {
            assert(directions@.subrange(0, i as int) =~= directions@);
        }
        current_board
    }

    /// Returns the board after the moves of `directions`; when exactly one
    /// direction is given, a tile is spawned with `spawn` as well. The game
    /// itself is left as it is.
    pub fn execute(&mut self, moves: &Moves, directions: &[Direction], spawn: Spawn) -> (r: u64)
        requires
            moves.wf(),
            directions@.len() == 1 ==> spawn.index < empty_count(
                apply_spec(old(self).board, directions@),
                16,
            ),
        ensures
            *final(self) == *old(self),
            r == if directions@.len() == 1 {
                apply_spec(old(self).board, directions@) | spawn_delta(
                    apply_spec(old(self).board, directions@),
                    spawn.index as nat,
                    spawn.roll,
                )
            } else {
                apply_spec(old(self).board, directions@)
            },
    {
        let mut current_board = Self::apply_moves(moves, self.board, directions);
        if directions.len() == 1 {
            current_board = current_board | Self::spawn_tile(current_board, spawn.index, spawn.roll);
        }
        current_board
    }
}

/// The slid rows of a board are 16-bit values.
pub(crate) proof fn lemma_slide_bounds(b: u64)
    ensures
        slide_low(row_of(b, 0)) < 0x1_0000,
        slide_low(row_of(b, 1)) < 0x1_0000,
        slide_low(row_of(b, 2)) < 0x1_0000,
        slide_low(row_of(b, 3)) < 0x1_0000,
        slide_high(row_of(b, 0)) < 0x1_0000,
        slide_high(row_of(b, 1)) < 0x1_0000,
        slide_high(row_of(b, 2)) < 0x1_0000,
        slide_high(row_of(b, 3)) < 0x1_0000,
{
    crate::row::lemma_slide_low_bound(row_of(b, 0));
    crate::row::lemma_slide_low_bound(row_of(b, 1));
    crate::row::lemma_slide_low_bound(row_of(b, 2));
    crate::row::lemma_slide_low_bound(row_of(b, 3));
    crate::row::lemma_slide_high_bound(row_of(b, 0));
    crate::row::lemma_slide_high_bound(row_of(b, 1));
    crate::row::lemma_slide_high_bound(row_of(b, 2));
    crate::row::lemma_slide_high_bound(row_of(b, 3));
}

} // verus!
