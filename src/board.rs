//! The packed board: sixteen 4-bit cells in one `u64`, four 16-bit rows.
//!
//! Cell `c` of row `r` is the nybble at bits `16 * r + 4 * c`. Row 0 is the
//! bottom row and cell 0 the rightmost one, so `0x0000_0000_0000_2211` shows
//! `2 2 1 1` along the bottom.
use vstd::prelude::*;

verus! {

/// Selects the low 16 bits: one row.
pub const ROW_MASK: u64 = 0xFFFF;

/// Selects the lowest cell of each row.
pub const COL_MASK: u64 = 0x000F_000F_000F_000F;

/// Nybble `k` (`0 <= k < 16`) of a board or row.
pub open spec fn cell(board: u64, k: u64) -> u64 {
    (board >> (4 * k)) & 0xF
}

/// Row `k` (`0 <= k < 4`) of a board, as a 16-bit value.
pub open spec fn row_of(board: u64, k: u64) -> u64 {
    (board >> (16 * k)) & 0xFFFF
}

/// The board whose rows, from the bottom, are `r0` to `r3` (each under 2^16).
pub open spec fn from_rows(r0: u64, r1: u64, r2: u64, r3: u64) -> u64 {
    r0 | (r1 << 16) | (r2 << 32) | (r3 << 48)
}

/// The board with row `r`, column `c` moved to row `c`, column `r`.
pub open spec fn transpose_spec(board: u64) -> u64 {
    let a = (board & 0xF0F0_0F0F_F0F0_0F0Fu64) | ((board & 0x0000_F0F0_0000_F0F0u64) << 12u64)
        | ((board & 0x0F0F_0000_0F0F_0000u64) >> 12u64);
    (a & 0xFF00_FF00_00FF_00FFu64) | ((a & 0x00FF_00FF_0000_0000u64) >> 24u64) | ((a
        & 0x0000_0000_FF00_FF00u64) << 24u64)
}

/// Spreads the four cells of a row over the lowest cell of each board row:
/// cell `k` of `row` becomes cell 0 of board row `k`.
pub open spec fn column_from_spec(row: u64) -> u64 {
    (row | (row << 12) | (row << 24) | (row << 36)) & COL_MASK
}

/// Transposing moves each cell across the diagonal.
pub proof fn lemma_transpose_cells(board: u64)
    ensures
        forall|r: u64, c: u64|
            r < 4 && c < 4 ==> #[trigger] cell(transpose_spec(board), (4 * r + c) as u64) == cell(
                board,
                (4 * c + r) as u64,
            ),
{
    assert(forall|r: u64, c: u64|
        r < 4 && c < 4 ==> #[trigger] cell(transpose_spec(board), (4 * r + c) as u64) == cell(
            board,
            (4 * c + r) as u64,
        )) by (bit_vector);
}

/// Transposing twice gives the board back.
pub proof fn lemma_transpose_involution(board: u64)
    ensures
        transpose_spec(transpose_spec(board)) == board,
{
    assert(transpose_spec(transpose_spec(board)) == board) by (bit_vector);
}

} // verus!
