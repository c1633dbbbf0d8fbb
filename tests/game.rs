use game2048::{Direction, Game, GameStatus, Moves, Spawn};

#[test]
fn transpose_example() {
    assert_eq!(Game::transpose(0xFEDC_BA98_7654_3210), 0xFB73_EA62_D951_C840);
}

#[test]
fn transpose_twice_is_identity() {
    for b in [0u64, 0xFEDC_BA98_7654_3210, 0x0123_4567_89AB_CDEF, 0x1000_0200_0030_0004] {
        assert_eq!(Game::transpose(Game::transpose(b)), b);
    }
}

#[test]
fn move_left_two_rows_merge() {
    let moves = Moves::new();
    assert_eq!(Game::move_left(&moves, 0x0000_0000_0022_1100), 0x0000_0000_3000_2000);
}

#[test]
fn count_empty_example() {
    assert_eq!(Game::count_empty(0x0000_0000_0000_2211), 12);
    assert_eq!(Game::count_empty(0), 16);
    assert_eq!(Game::count_empty(0x1111_1111_1111_1111), 0);
}

#[test]
fn move_up_example() {
    let moves = Moves::new();
    assert_eq!(Game::move_up(&moves, 0x0000_0000_0000_0011), 0x0011_0000_0000_0000);
    assert_eq!(Game::move_up(&moves, 0x0001_0001_0001_0001), 0x0002_0002_0000_0000);
}

#[test]
fn move_down_example() {
    let moves = Moves::new();
    assert_eq!(Game::move_down(&moves, 0x0011_0000_0000_0011), 0x0000_0000_0000_0022);
    assert_eq!(Game::move_down(&moves, 0x0001_0001_0001_0001), 0x0000_0000_0002_0002);
}

#[test]
fn move_right_example() {
    let moves = Moves::new();
    assert_eq!(Game::move_right(&moves, 0x0000_0000_0000_2211), 0x0000_0000_0000_0032);
    assert_eq!(Game::move_right(&moves, 0x1111), 0x0022);
    assert_eq!(Game::move_right(&moves, 0x2110), 0x0022);
}

#[test]
fn move_left_example() {
    let moves = Moves::new();
    assert_eq!(Game::move_left(&moves, 0x0000_0000_0000_2211), 0x0000_0000_0000_3200);
    assert_eq!(Game::move_left(&moves, 0x1111), 0x2200);
}

#[test]
fn largest_tiles_do_not_merge() {
    let moves = Moves::new();
    assert_eq!(Game::move_right(&moves, 0x00FF), 0x00FF);
    assert_eq!(Game::move_left(&moves, 0xFF00), 0xFF00);
    assert_eq!(Game::move_left(&moves, 0x00FF), 0xFF00);
    assert_eq!(Game::move_up(&moves, 0x000F_000F), 0x000F_000F_0000_0000);
    assert_eq!(Game::move_down(&moves, 0x000F_000F), 0x000F_000F);
    assert_eq!(Game::move_right(&moves, 0xEEFF), 0x0FFF);
}

#[test]
fn blocked_row_is_unchanged() {
    let moves = Moves::new();
    assert_eq!(Game::move_left(&moves, 0x1212), 0x1212);
    assert_eq!(Game::move_right(&moves, 0x1212), 0x1212);
}

#[test]
fn noop_move_stays_noop() {
    let moves = Moves::new();
    let b = 0x0000_0000_3000_2000;
    assert_eq!(Game::move_left(&moves, b), b);
    assert_eq!(Game::move_left(&moves, Game::move_left(&moves, b)), b);
}

#[test]
fn direction_symmetry_on_boards() {
    let moves = Moves::new();
    for b in [0x0123_4567_89AB_CDEF, 0x1100_0220_1001_0011, 0x2211_0000_1122_0101] {
        let t = Game::transpose(b);
        assert_eq!(Game::move_left(&moves, b), Game::transpose(Game::move_up(&moves, t)));
        assert_eq!(Game::move_right(&moves, b), Game::transpose(Game::move_down(&moves, t)));
    }
}

#[test]
fn move_tables_entries() {
    let moves = Moves::new();
    assert_eq!(moves.right[0x0011], 0x0013);
    assert_eq!(moves.left[0x0011], 0x2011);
    assert_eq!(moves.down[0x0011], 0x0000_0000_0001_0003);
    assert_eq!(moves.up[0x0011], 0x0002_0000_0001_0001);
    assert_eq!(moves.scores[0x0003], 32);
}

#[test]
fn column_from_spreads_cells() {
    assert_eq!(Moves::column_from(0x4321), 0x0004_0003_0002_0001);
    assert_eq!(Moves::column_from(0xF00F), 0x000F_0000_0000_000F);
}

#[test]
fn score_values() {
    let moves = Moves::new();
    assert_eq!(Game::score(&moves, 0x0001), 0);
    assert_eq!(Game::score(&moves, 0x0002), 8);
    assert_eq!(Game::score(&moves, 0x0003), 32);
    assert_eq!(Game::score(&moves, 0x0000_0000_0000_2211), 16);
    assert_eq!(Game::score(&moves, 0x0022_0000_0000_0000), 16);
}

#[test]
fn score_after_merge_grows() {
    let moves = Moves::new();
    let b = 0x0000_0000_0022_1100;
    assert!(Game::score(&moves, Game::move_left(&moves, b)) >= Game::score(&moves, b));
}

#[test]
fn table_helper_sums_rows() {
    let mut table = vec![0u64; 65540];
    table[0x0001] = 5;
    table[0x0000] = 1;
    table[0x2211] = 100;
    assert_eq!(Game::table_helper(0x0001_0000_2211_0000, &table), 107);
}

#[test]
fn tile_for_rolls() {
    assert_eq!(Game::tile(0), 1);
    assert_eq!(Game::tile(9), 1);
    assert_eq!(Game::tile(10), 2);
}

#[test]
fn spawn_tile_positions() {
    assert_eq!(Game::spawn_tile(0, 0, 0), 1);
    assert_eq!(Game::spawn_tile(0, 5, 0), 1 << 20);
    assert_eq!(Game::spawn_tile(0x2211, 0, 0), 0x1_0000);
    assert_eq!(Game::spawn_tile(0x2211, 2, 10), 0x200_0000);
    assert_eq!(Game::spawn_tile(0x0101, 0, 0), 0x0010);
    assert_eq!(Game::spawn_tile(0x0101, 1, 0), 0x1000);
}

#[test]
fn spawn_lands_on_empty_cell() {
    let board = 0x0000_3000_0000_2211;
    for i in 0..Game::count_empty(board) {
        let d = Game::spawn_tile(board, i, 0);
        assert_eq!(board & d, 0);
        assert_eq!(Game::count_empty(board | d), Game::count_empty(board) - 1);
    }
}

#[test]
fn new_game_has_two_tiles() {
    let g = Game::new(7, Spawn { index: 0, roll: 0 }, Spawn { index: 0, roll: 0 });
    assert_eq!(g.seed, 7);
    assert_eq!(g.board, 0x11);
    let g = Game::new(1, Spawn { index: 15, roll: 0 }, Spawn { index: 14, roll: 10 });
    assert_eq!(g.board, 0x1200_0000_0000_0000);
}

#[test]
fn execute_without_directions_keeps_board() {
    let moves = Moves::new();
    let mut g = Game { board: 0x0000_0000_0022_1100, seed: 3 };
    assert_eq!(g.execute(&moves, &[], Spawn { index: 0, roll: 0 }), 0x0000_0000_0022_1100);
}

#[test]
fn execute_one_direction_spawns() {
    let moves = Moves::new();
    let mut g = Game { board: 0x0000_0000_0022_1100, seed: 3 };
    let r = g.execute(&moves, &[Direction::Left], Spawn { index: 0, roll: 0 });
    assert_eq!(r, 0x0000_0000_3000_2001);
    assert_eq!(g.board, 0x0000_0000_0022_1100);
}

#[test]
fn execute_several_directions_does_not_spawn() {
    let moves = Moves::new();
    let mut g = Game { board: 0x0000_0000_0022_1100, seed: 3 };
    let r = g.execute(&moves, &[Direction::Left, Direction::Up], Spawn { index: 0, roll: 0 });
    assert_eq!(r, 0x3000_2000_0000_0000);
    assert_eq!(Game::apply_moves(&moves, 0x0000_0000_0022_1100, &[Direction::Right, Direction::Down]), 0x0000_0000_0003_0002);
}

#[test]
fn game_status_default_is_active() {
    assert_eq!(GameStatus::default(), GameStatus::Active);
}

#[test]
fn largest_tiles_keep_score() {
    let moves = Moves::new();
    assert_eq!(Game::score(&moves, 0x00FF), 2 * 917_504);
    assert_eq!(Game::score(&moves, Game::move_left(&moves, 0x00FF)), 2 * 917_504);
}

#[test]
fn score_never_drops() {
    let moves = Moves::new();
    for b in [0x0123_4567_89AB_CDE0u64, 0x1111_2222_3333_4444, 0x0011_0220_3300_0044, 0xFF00_00FF_F0F0_0F0F] {
        let before = Game::score(&moves, b);
        assert!(Game::score(&moves, Game::move_left(&moves, b)) >= before);
        assert!(Game::score(&moves, Game::move_right(&moves, b)) >= before);
        assert!(Game::score(&moves, Game::move_up(&moves, b)) >= before);
        assert!(Game::score(&moves, Game::move_down(&moves, b)) >= before);
    }
    assert_eq!(Game::score(&moves, 0x0022), 16);
    assert_eq!(Game::score(&moves, Game::move_right(&moves, 0x0022)), 32);
}

fn total_value(board: u64) -> u64 {
    (0..16)
        .map(|k| (board >> (4 * k)) & 0xF)
        .filter(|&v| v != 0)
        .map(|v| 1u64 << v)
        .sum()
}

#[test]
fn moves_keep_total_tile_value() {
    let moves = Moves::new();
    let b = 0x0000_0000_0022_1100;
    assert_eq!(Game::move_left(&moves, b), 0x0000_0000_3000_2000);
    assert_eq!(total_value(Game::move_left(&moves, b)), total_value(b));
    for b in [0x0123_4567_89AB_CDE0u64, 0x1111_2222_3333_4444, 0x2211_1122_0101_1010, 0xFF00_00FF_F0F0_0F0F] {
        assert_eq!(total_value(Game::move_left(&moves, b)), total_value(b));
        assert_eq!(total_value(Game::move_right(&moves, b)), total_value(b));
        assert_eq!(total_value(Game::move_up(&moves, b)), total_value(b));
        assert_eq!(total_value(Game::move_down(&moves, b)), total_value(b));
    }
}
