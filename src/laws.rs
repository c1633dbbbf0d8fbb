//! Properties that hold across calls: of moves, transposition and spawning.
use vstd::prelude::*;

use crate::board::{cell, lemma_transpose_involution, transpose_spec};
use crate::game::{
    empty_count, move_down_spec, move_left_spec, move_right_spec, move_spec, move_up_spec,
    spawn_cell, spawn_delta, tile_spec, Direction,
};

verus! {

/// A move that leaves a board unchanged leaves it unchanged when made again.
pub proof fn lemma_noop_move_stays(board: u64, d: Direction)
    requires
        move_spec(board, d) == board,
    ensures
        move_spec(move_spec(board, d), d) == board,
{
}

/// Moving left is moving up on the transposed board, transposed back; moving
/// right is the same with down.
pub proof fn lemma_direction_symmetry(board: u64)
    ensures
        move_left_spec(board) == transpose_spec(move_up_spec(transpose_spec(board))),
        move_right_spec(board) == transpose_spec(move_down_spec(transpose_spec(board))),
{
    lemma_transpose_involution(board);
    lemma_transpose_involution(move_left_spec(board));
    lemma_transpose_involution(move_right_spec(board));
}

/// A spawned tile lands on a cell that was empty: every non-empty cell of the
/// delta is empty on the board, and the delta shares no bit with the board.
pub proof fn lemma_spawn_on_empty_cell(board: u64, index: nat, roll: u32)
    requires
        index < empty_count(board, 16),
    ensures
        forall|k: u64|
            k < 16 && #[trigger] cell(spawn_delta(board, index, roll), k) != 0 ==> cell(board, k)
                == 0,
        board & spawn_delta(board, index, roll) == 0,
{
    crate::game::lemma_spawn_exists(board, index);
    let p = spawn_cell(board, index);
    let t = tile_spec(roll);
    assert(forall|k: u64|
        k < 16 && #[trigger] cell(t << (4 * p) as u64, k) != 0 ==> k == p) by (bit_vector)
        requires
            0 < t < 3,
            p < 16,
    ;
    assert((board >> (4 * p) as u64) & 0xF == 0 ==> board & (t << (4 * p) as u64) == 0)
        by (bit_vector)
        requires
            0 < t < 3,
            p < 16,
    ;
}

} // verus!
