use game2048::model::{get_color_for_cell, get_color_for_text, get_move, TOUCH_MOVE_THRESHOLD};
use game2048::{Grid, Model, Move, Msg};

/// Checks that `after` is `before` with the move attempted.
fn assert_attempted(before: &Grid, mov: Move, after: &Grid) {
    let (pushed, earned) = Grid::make_move(before.cells, mov);
    if pushed == before.cells {
        assert_eq!(after.cells, before.cells);
        assert_eq!(after.get_score(), before.get_score());
    } else {
        assert_eq!(after.get_score(), before.get_score() + earned);
        let mut spawned = 0;
        for i in 0..4 {
            for j in 0..4 {
                if after.cells[i][j] != pushed[i][j] {
                    assert_eq!(pushed[i][j], 0);
                    assert!(after.cells[i][j] == 2 || after.cells[i][j] == 4);
                    spawned += 1;
                }
            }
        }
        assert_eq!(spawned, 1);
    }
}

/// A game with the model's board. A new model has no points yet.
fn snapshot(model: &Model) -> Grid {
    assert_eq!(model.grid().get_score(), 0);
    Grid::new(model.grid().cells)
}

#[test]
fn a_swipe_goes_along_its_longer_side() {
    assert_eq!(get_move(31, 0), Move::Right);
    assert_eq!(get_move(-31, 0), Move::Left);
    assert_eq!(get_move(0, 31), Move::Down);
    assert_eq!(get_move(0, -31), Move::Up);
    assert_eq!(get_move(40, -39), Move::Right);
    assert_eq!(get_move(-40, 39), Move::Left);
    assert_eq!(get_move(39, 40), Move::Down);
    assert_eq!(get_move(39, -40), Move::Up);
}

#[test]
fn a_swipe_as_long_as_wide_goes_down_or_up() {
    assert_eq!(get_move(5, 5), Move::Down);
    assert_eq!(get_move(-5, 5), Move::Down);
    assert_eq!(get_move(5, -5), Move::Up);
    assert_eq!(get_move(-5, -5), Move::Up);
    assert_eq!(get_move(0, 0), Move::Up);
    assert_eq!(get_move(i32::MAX, -i32::MAX), Move::Up);
}

#[test]
fn the_threshold_is_thirty() {
    assert_eq!(TOUCH_MOVE_THRESHOLD, 30);
}

#[test]
fn a_new_model_holds_a_new_game() {
    let model = Model::create();
    assert_eq!(model.touch_start(), (None, None));
    assert_eq!(model.grid().get_score(), 0);
    assert_eq!(Grid::get_empty_cells(model.grid().cells).len(), 14);
}

#[test]
fn arrow_keys_attempt_their_moves() {
    for (key, mov) in [(37, Move::Left), (38, Move::Up), (39, Move::Right), (40, Move::Down)] {
        for _ in 0..20 {
            let mut model = Model::create();
            let before = snapshot(&model);
            assert!(model.update(Msg::KeyDown(key)));
            assert_attempted(&before, mov, model.grid());
            assert_eq!(model.touch_start(), (None, None));
        }
    }
}

#[test]
fn other_keys_do_nothing() {
    for key in [0, 13, 32, 36, 41, 65, u32::MAX] {
        let mut model = Model::create();
        let cells = model.grid().cells;
        assert!(model.update(Msg::KeyDown(key)));
        assert_eq!(model.grid().cells, cells);
        assert_eq!(model.grid().get_score(), 0);
    }
}

#[test]
fn a_touch_that_begins_is_remembered() {
    let mut model = Model::create();
    let cells = model.grid().cells;
    assert!(model.update(Msg::TouchStart(Some((120, -7)))));
    assert_eq!(model.touch_start(), (Some(120), Some(-7)));
    assert!(model.update(Msg::TouchStart(None)));
    assert_eq!(model.touch_start(), (Some(120), Some(-7)));
    assert!(model.update(Msg::TouchMove));
    assert_eq!(model.touch_start(), (Some(120), Some(-7)));
    assert!(model.update(Msg::TouchStart(Some((1, 2)))));
    assert_eq!(model.touch_start(), (Some(1), Some(2)));
    assert_eq!(model.grid().cells, cells);
}

#[test]
fn a_touch_that_ends_without_a_beginning_is_nothing() {
    let mut model = Model::create();
    let cells = model.grid().cells;
    assert!(!model.update(Msg::TouchEnd(Some((500, 500)))));
    assert!(!model.update(Msg::TouchEnd(None)));
    assert_eq!(model.grid().cells, cells);
    assert_eq!(model.touch_start(), (None, None));
}

#[test]
fn a_touch_that_ends_with_no_finger_lifted_is_nothing() {
    let mut model = Model::create();
    let cells = model.grid().cells;
    assert!(model.update(Msg::TouchStart(Some((100, 100)))));
    assert!(!model.update(Msg::TouchEnd(None)));
    assert_eq!(model.grid().cells, cells);
    assert_eq!(model.touch_start(), (Some(100), Some(100)));
}

#[test]
fn a_short_swipe_is_no_move_and_is_not_forgotten() {
    for (x, y) in [(100, 100), (129, 129), (71, 71), (129, 71), (100, 129)] {
        let mut model = Model::create();
        let cells = model.grid().cells;
        assert!(model.update(Msg::TouchStart(Some((100, 100)))));
        assert!(!model.update(Msg::TouchEnd(Some((x, y)))));
        assert_eq!(model.grid().cells, cells);
        assert_eq!(model.touch_start(), (Some(100), Some(100)));
    }
}

#[test]
fn a_long_swipe_attempts_its_move_and_is_forgotten() {
    let swipes = [
        ((130, 100), Move::Right),
        ((70, 100), Move::Left),
        ((100, 130), Move::Down),
        ((100, 70), Move::Up),
        ((130, 130), Move::Down),
        ((140, 60), Move::Up),
        ((160, 129), Move::Right),
    ];
    for (end, mov) in swipes {
        for _ in 0..20 {
            let mut model = Model::create();
            let before = snapshot(&model);
            assert!(model.update(Msg::TouchStart(Some((100, 100)))));
            assert!(model.update(Msg::TouchEnd(Some(end))));
            assert_attempted(&before, mov, model.grid());
            assert_eq!(model.touch_start(), (None, None));
        }
    }
}

#[test]
fn a_new_game_replaces_the_game() {
    let mut model = Model::create();
    assert!(model.update(Msg::TouchStart(Some((3, 4)))));
    for key in [37, 38, 39, 40, 37, 38, 39, 40] {
        model.update(Msg::KeyDown(key));
    }
    assert!(model.update(Msg::NewGame));
    assert_eq!(model.grid().get_score(), 0);
    assert_eq!(Grid::get_empty_cells(model.grid().cells).len(), 14);
    assert_eq!(model.touch_start(), (Some(3), Some(4)));
}

#[test]
fn the_model_attempts_the_move_it_is_told() {
    for mov in [Move::Left, Move::Right, Move::Up, Move::Down] {
        let mut model = Model::create();
        let before = snapshot(&model);
        model.make_move(mov);
        assert_attempted(&before, mov, model.grid());
    }
}

#[test]
fn each_tile_has_its_colour() {
    assert_eq!(get_color_for_cell(0), "rgba(238, 228, 218, 0.35)");
    assert_eq!(get_color_for_cell(2), "#eee4da");
    assert_eq!(get_color_for_cell(4), "#ede0c8");
    assert_eq!(get_color_for_cell(8), "#f2b179");
    assert_eq!(get_color_for_cell(16), "#f59563");
    assert_eq!(get_color_for_cell(32), "#f67c5f");
    assert_eq!(get_color_for_cell(64), "#f65e3b");
    assert_eq!(get_color_for_cell(128), "#edcf72");
    assert_eq!(get_color_for_cell(256), "#edcc61");
    assert_eq!(get_color_for_cell(512), "#edc850");
    assert_eq!(get_color_for_cell(1024), "#edc53f");
    assert_eq!(get_color_for_cell(2048), "#edc22e");
    assert_eq!(get_color_for_cell(4096), "#3c3a32");
    assert_eq!(get_color_for_cell(3), "#3c3a32");
}

#[test]
fn the_numbers_are_dark_on_light_tiles() {
    assert_eq!(get_color_for_text(2), "#6c6462");
    assert_eq!(get_color_for_text(4), "#6c6462");
    assert_eq!(get_color_for_text(0), "#FFFFFF");
    assert_eq!(get_color_for_text(8), "#FFFFFF");
    assert_eq!(get_color_for_text(2048), "#FFFFFF");
}
