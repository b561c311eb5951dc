use game2048::{GameStatus, Grid, Move};

const EMPTY: [u64; 4] = [0, 0, 0, 0];

fn sum_of(cells: [[u64; 4]; 4]) -> u64 {
    cells.iter().map(|row| row.iter().sum::<u64>()).sum()
}

fn count_empty(cells: [[u64; 4]; 4]) -> usize {
    cells.iter().map(|row| row.iter().filter(|v| **v == 0).count()).sum()
}

fn interleaved() -> [[u64; 4]; 4] {
    [[2, 4, 2, 4], [4, 2, 4, 2], [2, 4, 2, 4], [4, 2, 4, 2]]
}

#[test]
fn four_equal_tiles_merge_into_two() {
    let (cells, score) = Grid::mov([[2, 2, 2, 2], EMPTY, EMPTY, EMPTY]);
    assert_eq!(cells, [[0, 0, 4, 4], EMPTY, EMPTY, EMPTY]);
    assert_ne!(cells[0], [0, 0, 0, 8]);
    assert_eq!(score, 8);
}

#[test]
fn tiles_apart_meet_and_merge() {
    let (cells, score) = Grid::mov([[2, 0, 0, 2], EMPTY, EMPTY, EMPTY]);
    assert_eq!(cells, [[0, 0, 0, 4], EMPTY, EMPTY, EMPTY]);
    assert_eq!(score, 4);
}

#[test]
fn the_pair_nearest_the_wall_merges_first() {
    let (cells, score) = Grid::mov([[2, 2, 2, 0], EMPTY, EMPTY, EMPTY]);
    assert_eq!(cells, [[0, 0, 2, 4], EMPTY, EMPTY, EMPTY]);
    assert_eq!(score, 4);

    let (cells, score) = Grid::make_move([[2, 2, 2, 0], EMPTY, EMPTY, EMPTY], Move::Left);
    assert_eq!(cells, [[4, 2, 0, 0], EMPTY, EMPTY, EMPTY]);
    assert_eq!(score, 4);
}

#[test]
fn a_merged_tile_does_not_merge_again() {
    let (cells, score) = Grid::mov([[4, 2, 2, 0], EMPTY, EMPTY, EMPTY]);
    assert_eq!(cells, [[0, 0, 4, 4], EMPTY, EMPTY, EMPTY]);
    assert_eq!(score, 4);
}

#[test]
fn two_merges_in_different_rows_earn_24() {
    let cells = [[4, 4, 0, 0], [2, 4, 0, 0], [0, 0, 0, 0], [0, 8, 8, 0]];
    let (moved, score) = Grid::make_move(cells, Move::Right);
    assert_eq!(moved, [[0, 0, 0, 8], [0, 0, 2, 4], [0, 0, 0, 0], [0, 0, 0, 16]]);
    assert_eq!(score, 24);
}

#[test]
fn interleaved_board_is_lost() {
    let cells = interleaved();
    let grid = Grid::new(cells);
    assert!(grid.has_player_lost());
    for mov in [Move::Left, Move::Right, Move::Up, Move::Down] {
        let (moved, score) = Grid::make_move(cells, mov);
        assert_eq!(moved, cells);
        assert_eq!(score, 0);
        assert!(!grid.move_is_valid(mov));
    }
}

#[test]
fn a_move_that_changes_nothing_is_refused() {
    let cells = [[2, 4, 0, 0], [2, 0, 0, 0], [0, 0, 0, 0], [4, 2, 0, 0]];
    let mut grid = Grid::new(cells);
    assert_eq!(grid.attempt(Move::Left), GameStatus::InvalidMove);
    assert_eq!(grid.cells, cells);
    assert_eq!(grid.cells(), cells);
    assert_eq!(grid.get_score(), 0);
    assert_eq!(grid, Grid::new(cells));
}

#[test]
fn a_refused_move_keeps_the_score() {
    let mut grid = Grid::new([[2, 2, 0, 0], EMPTY, EMPTY, EMPTY]);
    assert_eq!(grid.attempt(Move::Left), GameStatus::Accepted);
    assert_eq!(grid.get_score(), 4);
    let cells = grid.cells;
    if !grid.move_is_valid(Move::Left) {
        assert_eq!(grid.attempt(Move::Left), GameStatus::InvalidMove);
        assert_eq!(grid.cells, cells);
        assert_eq!(grid.get_score(), 4);
    }
}

#[test]
fn packed_tiles_that_cannot_merge_do_not_move() {
    let cells = [[0, 0, 0, 2], [0, 0, 2, 4], [0, 2, 4, 8], [2, 4, 8, 16]];
    let mut grid = Grid::new(cells);
    assert!(!grid.move_is_valid(Move::Right));
    assert_eq!(grid.attempt(Move::Right), GameStatus::InvalidMove);
    assert_eq!(grid.cells, cells);
}

#[test]
fn an_accepted_move_spawns_one_tile() {
    let cells = [[0, 0, 2, 0], [0, 2, 0, 2], [0, 0, 0, 0], [4, 4, 2, 2]];
    let pushed = [[0, 0, 0, 2], [0, 0, 0, 4], [0, 0, 0, 0], [0, 0, 8, 4]];
    for _ in 0..50 {
        let mut grid = Grid::new(cells);
        assert_eq!(grid.attempt(Move::Right), GameStatus::Accepted);
        assert_eq!(grid.get_score(), 4 + 8 + 4);
        let mut spawned = 0;
        for i in 0..4 {
            for j in 0..4 {
                if grid.cells[i][j] != pushed[i][j] {
                    assert_eq!(pushed[i][j], 0);
                    assert!(grid.cells[i][j] == 2 || grid.cells[i][j] == 4);
                    spawned += 1;
                }
            }
        }
        assert_eq!(spawned, 1);
    }
}

#[test]
fn a_move_adds_the_new_tile_to_the_sum() {
    let cells = [[2, 2, 4, 4], [0, 2, 0, 2], [2, 0, 2, 0], [0, 2, 0, 0]];
    for mov in [Move::Left, Move::Right, Move::Up, Move::Down] {
        let (moved, _) = Grid::make_move(cells, mov);
        assert_eq!(sum_of(moved), sum_of(cells));

        let mut grid = Grid::new(cells);
        assert_ne!(grid.attempt(mov), GameStatus::InvalidMove);
        let added = sum_of(grid.cells) - sum_of(cells);
        assert!(added == 2 || added == 4);
    }
}

#[test]
fn a_move_that_fills_the_board_without_a_way_out_is_lost() {
    let cells = [[8, 16, 8, 16], [16, 8, 16, 8], [8, 16, 8, 16], [32, 64, 128, 128]];
    for _ in 0..20 {
        let mut grid = Grid::new(cells);
        assert!(!grid.has_player_lost());
        assert_eq!(grid.attempt(Move::Right), GameStatus::Lost);
        assert_eq!(grid.get_score(), 256);
        assert_eq!(&grid.cells[..3], &cells[..3]);
        assert_eq!(&grid.cells[3][1..], &[32, 64, 256]);
        assert!(grid.cells[3][0] == 2 || grid.cells[3][0] == 4);
        assert!(grid.has_player_lost());
    }
}

#[test]
fn four_quarter_turns_are_none() {
    let cells = [[2, 2, 2, 2], [0, 0, 0, 0], [2, 0, 4, 0], [0, 8, 0, 16]];
    assert_eq!(Grid::rotate_times(cells, 4), cells);
    assert_eq!(Grid::rotate_times(cells, 0), cells);
    let twice = Grid::rotate_times(cells, 2);
    assert_eq!(Grid::rotate_times(twice, 2), Grid::rotate_times(cells, 4));
    assert_eq!(Grid::rotate(Grid::rotate(Grid::rotate(Grid::rotate(cells)))), cells);
    assert_eq!(Grid::rotate_times(cells, 3), Grid::rotate(twice));
}

#[test]
fn a_quarter_turn_is_clockwise() {
    let cells = [[1, 2, 3, 4], [5, 6, 7, 8], [9, 10, 11, 12], [13, 14, 15, 16]];
    let turned = [[13, 9, 5, 1], [14, 10, 6, 2], [15, 11, 7, 3], [16, 12, 8, 4]];
    assert_eq!(Grid::rotate(cells), turned);
}

#[test]
fn a_new_game_has_two_tiles() {
    for _ in 0..200 {
        let grid = Grid::new_random();
        assert_eq!(grid.get_score(), 0);
        assert_eq!(count_empty(grid.cells), 14);
        assert_eq!(Grid::get_empty_cells(grid.cells).len(), 14);
        for row in grid.cells {
            for value in row {
                assert!(value == 0 || value == 2 || value == 4);
            }
        }
    }
}

#[test]
fn the_default_game_is_a_new_game() {
    let grid = Grid::default();
    assert_eq!(grid.get_score(), 0);
    assert_eq!(count_empty(grid.cells), 14);
}

#[test]
fn the_only_empty_cell_gets_the_new_tile() {
    let cells = [[2, 2, 4, 2], [2, 2, 2, 2], [4, 2, 2, 0], [2, 2, 2, 2]];
    for _ in 0..20 {
        let mut grid = Grid::new(cells);
        grid.insert_random_cell();
        let value = grid.cells[2][3];
        assert!(value == 2 || value == 4);
        let mut rest = grid.cells;
        rest[2][3] = 0;
        assert_eq!(rest, cells);
        assert_eq!(grid.get_score(), 0);
        assert!(grid.is_board_full());
    }
}

#[test]
fn the_new_tile_lands_on_an_empty_cell() {
    let cells = [[2, 0, 4, 0], [0, 8, 0, 2], [4, 0, 0, 0], [0, 2, 0, 16]];
    for _ in 0..100 {
        let mut grid = Grid::new(cells);
        grid.insert_random_cell();
        let mut changed = 0;
        for i in 0..4 {
            for j in 0..4 {
                if grid.cells[i][j] != cells[i][j] {
                    assert_eq!(cells[i][j], 0);
                    assert!(grid.cells[i][j] == 2 || grid.cells[i][j] == 4);
                    changed += 1;
                }
            }
        }
        assert_eq!(changed, 1);
    }
}

#[test]
fn both_new_tile_values_occur() {
    let mut twos = 0;
    let mut fours = 0;
    for _ in 0..2000 {
        let mut grid = Grid::new([EMPTY, EMPTY, EMPTY, EMPTY]);
        grid.insert_random_cell();
        match sum_of(grid.cells) {
            2 => twos += 1,
            4 => fours += 1,
            other => panic!("a new tile of {}", other),
        }
    }
    assert!(twos > fours);
    assert!(fours > 0);
}

#[test]
fn a_full_board_gets_no_new_tile() {
    let cells = interleaved();
    let mut grid = Grid::new(cells);
    grid.insert_random_cell();
    assert_eq!(grid.cells, cells);
    assert_eq!(grid.get_score(), 0);
}

#[test]
fn a_tile_is_placed_where_it_is_told() {
    let mut grid = Grid::new([EMPTY, EMPTY, EMPTY, EMPTY]);
    grid.place_tile((1, 2), true);
    grid.place_tile((3, 0), false);
    assert_eq!(grid.cells, [EMPTY, [0, 0, 2, 0], EMPTY, [4, 0, 0, 0]]);
    assert_eq!(grid.get_score(), 0);
}

#[test]
fn each_direction_has_its_number_of_turns() {
    assert_eq!(Move::Right.get_number(), 0);
    assert_eq!(Move::Up.get_number(), 1);
    assert_eq!(Move::Left.get_number(), 2);
    assert_eq!(Move::Down.get_number(), 3);
}

#[test]
fn turning_pushing_and_turning_on_is_a_push_in_a_direction() {
    let cells = [[2, 2, 4, 4], [0, 2, 0, 2], [2, 0, 2, 0], [0, 2, 0, 0]];
    for mov in [Move::Left, Move::Right, Move::Up, Move::Down] {
        assert_eq!(Grid::handle_move(cells, mov.get_number()), Grid::make_move(cells, mov));
    }
    assert_eq!(Grid::handle_move(cells, 4), Grid::mov(cells));
    assert_eq!(Grid::handle_move(cells, 0), Grid::mov(cells));
    let (down, score) = Grid::make_move(cells, Move::Down);
    assert_eq!(down, [[0, 0, 0, 0], [0, 0, 0, 0], [0, 2, 4, 4], [4, 4, 2, 2]]);
    assert_eq!(score, 4 + 4);
}

#[test]
fn packing_keeps_the_order_of_the_tiles() {
    let cells = [[2, 0, 4, 0], [0, 8, 0, 2], [4, 4, 0, 0], [16, 2, 2, 16]];
    let packed = [[0, 0, 2, 4], [0, 0, 8, 2], [0, 0, 4, 4], [16, 2, 2, 16]];
    assert_eq!(Grid::mov_all_cells_to_the_side(cells), packed);
}

#[test]
fn empty_cells_come_in_reading_order() {
    let all = Grid::get_empty_cells([EMPTY, EMPTY, EMPTY, EMPTY]);
    assert_eq!(all.len(), 16);
    assert_eq!(all[0], (0, 0));
    assert_eq!(all[5], (1, 1));
    assert_eq!(all[15], (3, 3));
    assert_eq!(Grid::get_empty_cells(interleaved()), vec![]);
}

#[test]
fn the_score_adds_up_over_moves() {
    let mut grid = Grid::new([[8, 8, 0, 0], EMPTY, EMPTY, EMPTY]);
    assert_ne!(grid.attempt(Move::Left), GameStatus::InvalidMove);
    assert_eq!(grid.get_score(), 16);
    let before = grid.get_score();
    for mov in [Move::Down, Move::Right, Move::Up, Move::Left] {
        grid.attempt(mov);
        assert!(grid.get_score() >= before);
    }
}

#[test]
fn sums_within_a_machine_word_are_within_limits() {
    assert!(Grid::new(interleaved()).within_limits());
    assert!(Grid::new([EMPTY, EMPTY, EMPTY, EMPTY]).within_limits());
    let most = u64::MAX - 4;
    assert!(Grid::new([[most, 0, 0, 0], EMPTY, EMPTY, EMPTY]).within_limits());
    assert!(!Grid::new([[most, 1, 0, 0], EMPTY, EMPTY, EMPTY]).within_limits());
    assert!(!Grid::new([[most, 0, 0, 0], EMPTY, EMPTY, [0, 0, 0, 1]]).within_limits());
    assert!(!Grid::new([[u64::MAX; 4]; 4]).within_limits());

    let mut grid = Grid::new([[4, 4, 0, 0], EMPTY, EMPTY, [most - 40, 0, 0, 0]]);
    assert!(grid.within_limits());
    assert_ne!(grid.attempt(Move::Right), GameStatus::InvalidMove);
    assert_eq!(grid.get_score(), 8);
    assert!(grid.within_limits());
}

fn tiles_of(cells: [[u64; 4]; 4]) -> Vec<u64> {
    let mut tiles: Vec<u64> = cells.iter().flatten().copied().filter(|v| *v != 0).collect();
    tiles.sort();
    tiles
}

#[test]
fn a_push_replaces_merged_pairs_by_their_sums_and_nothing_else() {
    let cells = [[2, 2, 4, 4], [0, 2, 0, 2], [2, 0, 2, 0], [0, 8, 0, 0]];
    assert_eq!(tiles_of(cells), vec![2, 2, 2, 2, 2, 2, 4, 4, 8]);

    let (right, earned) = Grid::make_move(cells, Move::Right);
    assert_eq!(tiles_of(right), vec![4, 4, 4, 8, 8]);
    assert_eq!(earned, 4 + 8 + 4 + 4);

    let (down, earned) = Grid::make_move(cells, Move::Down);
    assert_eq!(tiles_of(down), vec![2, 2, 4, 4, 4, 4, 8]);
    assert_eq!(earned, 4 + 4);

    let mut grid = Grid::new(cells);
    assert_eq!(grid.attempt(Move::Down), GameStatus::Accepted);
    let mut after = tiles_of(grid.cells);
    let spawned = sum_of(grid.cells) - sum_of(cells);
    let at = after.iter().position(|v| *v == spawned).unwrap();
    after.remove(at);
    assert_eq!(after, vec![2, 2, 4, 4, 4, 4, 8]);
}
