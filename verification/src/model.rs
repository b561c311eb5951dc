//! What the player's keys and touches ask of the game, and the colours in
//! which the tiles are shown.

use vstd::prelude::*;
use crate::board::{
    can_move, empty_cells, is_spawn, move_gain, moved, only_new_tiles, total, well_formed, Move,
};
use crate::grid::{Grid, GridView};

verus! {

/// A touch that ends nearer than this to where it began, across and down,
/// asks for no move.
pub const TOUCH_MOVE_THRESHOLD: i32 = 30;

/// Something that the player did, in plain values.
pub enum Msg {
    /// A key went down; its key code.
    KeyDown(u32),
    /// A touch began; where the first finger is, if a finger is on the board.
    TouchStart(Option<(i32, i32)>),
    /// A finger moved.
    TouchMove,
    /// A touch ended; where the first finger was lifted, if one was.
    TouchEnd(Option<(i32, i32)>),
    /// The player asked for a new game.
    NewGame,
}

/// The game with what is known of a touch under way.
pub struct Model {
    grid: Grid,
    touch_start_x: Option<i32>,
    touch_start_y: Option<i32>,
}

/// What a `Model` stands for.
pub struct ModelView {
    pub grid: GridView,
    pub touch_start_x: Option<i32>,
    pub touch_start_y: Option<i32>,
}

impl View for Model {
    type V = ModelView;

    closed spec fn view(&self) -> ModelView {
        ModelView {
            grid: self.grid@,
            touch_start_x: self.touch_start_x,
            touch_start_y: self.touch_start_y,
        }
    }
}

/// The distance of a value from zero.
pub open spec fn distance(v: int) -> int {
    if v < 0 {
        -v
    } else {
        v
    }
}

/// The direction that an arrow key asks for.
pub open spec fn key_move(key_code: u32) -> Option<Move> {
    if key_code == 37 {
        Some(Move::Left)
    } else if key_code == 38 {
        Some(Move::Up)
    } else if key_code == 39 {
        Some(Move::Right)
    } else if key_code == 40 {
        Some(Move::Down)
    } else {
        None
    }
}

/// The direction of a swipe that went `dx` across and `dy` down: along the
/// longer of the two, and down or up where they are equal.
pub open spec fn swipe_move(dx: int, dy: int) -> Move {
    if distance(dx) > distance(dy) {
        if dx > 0 {
            Move::Right
        } else {
            Move::Left
        }
    } else {
        if dy > 0 {
            Move::Down
        } else {
            Move::Up
        }
    }
}

/// The swipe from where the touch began to where it ended, if both are known.
pub open spec fn swipe(state: ModelView, msg: Msg) -> Option<(int, int)> {
    match (msg, state.touch_start_x, state.touch_start_y) {
        (Msg::TouchEnd(Some((x, y))), Some(x_start), Some(y_start)) => Some(
            (x - x_start, y - y_start),
        ),
        _ => None,
    }
}

/// The move that a message asks for, if it asks for one.
pub open spec fn asked_move(state: ModelView, msg: Msg) -> Option<Move> {
    match msg {
        Msg::KeyDown(key_code) => key_move(key_code),
        Msg::TouchEnd(_) => match swipe(state, msg) {
            Some((dx, dy)) => if distance(dx) < TOUCH_MOVE_THRESHOLD && distance(dy)
                < TOUCH_MOVE_THRESHOLD {
                None
            } else {
                Some(swipe_move(dx, dy))
            },
            None => None,
        },
        _ => None,
    }
}

/// No sum that attempting the move forms exceeds a machine word.
pub open spec fn can_attempt(grid: GridView, mov: Move) -> bool {
    can_move(grid.board, mov) ==> grid.score + move_gain(grid.board, mov) <= u64::MAX && total(
        grid.board,
    ) + 4 <= u64::MAX
}

/// `after` is the game `before` with the move attempted: made, with one new
/// tile, if it changes the board, and not made otherwise.
pub open spec fn attempted(before: GridView, mov: Move, after: GridView) -> bool {
    if can_move(before.board, mov) {
        &&& is_spawn(moved(before.board, mov), after.board)
        &&& after.score == before.score + move_gain(before.board, mov)
    } else {
        after == before
    }
}

/// A game as it begins: no points, fourteen empty cells, a 2 or a 4 in each
/// of the other two.
pub open spec fn fresh(grid: GridView) -> bool {
    &&& grid.score == 0
    &&& empty_cells(grid.board).len() == 14
    &&& only_new_tiles(grid.board)
    &&& well_formed(grid.board)
}

/// The colour of a cell that holds `value`.
pub open spec fn cell_color(value: u64) -> Seq<char> {
    if value == 0 {
        "rgba(238, 228, 218, 0.35)"@
    } else if value == 2 {
        "#eee4da"@
    } else if value == 4 {
        "#ede0c8"@
    } else if value == 8 {
        "#f2b179"@
    } else if value == 16 {
        "#f59563"@
    } else if value == 32 {
        "#f67c5f"@
    } else if value == 64 {
        "#f65e3b"@
    } else if value == 128 {
        "#edcf72"@
    } else if value == 256 {
        "#edcc61"@
    } else if value == 512 {
        "#edc850"@
    } else if value == 1024 {
        "#edc53f"@
    } else if value == 2048 {
        "#edc22e"@
    } else {
        "#3c3a32"@
    }
}

/// The colour of the number on a tile of `value`: dark on the two lightest
/// tiles, white on the others.
pub open spec fn text_color(value: u64) -> Seq<char> {
    if value == 2 || value == 4 {
        "#6c6462"@
    } else {
        "#FFFFFF"@
    }
}

/// The colour in which a cell that holds `value` is drawn.
pub fn get_color_for_cell(value: u64) -> (color: &'static str)
    ensures
        color@ == cell_color(value),
{
    match value {
        0 => "rgba(238, 228, 218, 0.35)",
        2 => "#eee4da",
        4 => "#ede0c8",
        8 => "#f2b179",
        16 => "#f59563",
        32 => "#f67c5f",
        64 => "#f65e3b",
        128 => "#edcf72",
        256 => "#edcc61",
        512 => "#edc850",
        1024 => "#edc53f",
        2048 => "#edc22e",
        _ => "#3c3a32",
    }
}

/// The colour in which the number on a tile of `value` is written.
pub fn get_color_for_text(value: u64) -> (color: &'static str)
    ensures
        color@ == text_color(value),
{
    match value {
        2 => "#6c6462",
        4 => "#6c6462",
        _ => "#FFFFFF",
    }
}

/// The distance of a coordinate from zero.
fn magnitude(v: i32) -> (d: i32)
    requires
        v > i32::MIN,
    ensures
        d == distance(v as int),
{
    if v < 0 {
        -v
    } else {
        v
    }
}

/// The direction of a swipe that went `dx` across and `dy` down.
pub fn get_move(dx: i32, dy: i32) -> (mov: Move)
    requires
        dx > i32::MIN,
        dy > i32::MIN,
    ensures
        mov == swipe_move(dx as int, dy as int),
{
    if magnitude(dx) > magnitude(dy) {
        if dx > 0 {
            Move::Right
        } else {
            Move::Left
        }
    } else {
        if dy > 0 {
            Move::Down
        } else {
            Move::Up
        }
    }
}

impl Model {
    /// A new game, no touch under way.
    pub fn create() -> (model: Self)
        ensures
            fresh(model@.grid),
            model@.touch_start_x is None,
            model@.touch_start_y is None,
    {
        Model { grid: Grid::default(), touch_start_x: None, touch_start_y: None }
    }

    /// The game.
    pub fn grid(&self) -> (grid: &Grid)
        ensures
            grid@ == self@.grid,
    {
        &self.grid
    }

    /// Where the touch under way began, across and down, as far as known.
    pub fn touch_start(&self) -> (start: (Option<i32>, Option<i32>))
        ensures
            start.0 == self@.touch_start_x,
            start.1 == self@.touch_start_y,
    {
        (self.touch_start_x, self.touch_start_y)
    }

    /// Attempts the move on the game.
    pub fn make_move(&mut self, mov: Move)
        requires
            can_attempt(old(self)@.grid, mov),
        ensures
            attempted(old(self)@.grid, mov, final(self)@.grid),
            final(self)@.touch_start_x == old(self)@.touch_start_x,
            final(self)@.touch_start_y == old(self)@.touch_start_y,
    {
        self.grid.attempt(mov);
    }

    /// Takes in what the player did. An arrow key attempts the move in its
    /// direction. A touch that begins is remembered; one that ends at least
    /// `TOUCH_MOVE_THRESHOLD` away from where it began, across or down,
    /// attempts the move in the direction of the swipe and is forgotten.
    /// A new game replaces the game. Returns whether the game is to be
    /// drawn again: always, but after a touch's end that asked for no move.
    pub fn update(&mut self, msg: Msg) -> (redraw: bool)
        requires
            swipe(old(self)@, msg) matches Some((dx, dy)) ==> i32::MIN < dx <= i32::MAX && i32::MIN
                < dy <= i32::MAX,
            asked_move(old(self)@, msg) matches Some(mov) ==> can_attempt(old(self)@.grid, mov),
        ensures
            redraw == (msg is TouchEnd ==> asked_move(old(self)@, msg) is Some),
            match msg {
                Msg::KeyDown(_) => match asked_move(old(self)@, msg) {
                    Some(mov) => {
                        &&& attempted(old(self)@.grid, mov, final(self)@.grid)
                        &&& final(self)@.touch_start_x == old(self)@.touch_start_x
                        &&& final(self)@.touch_start_y == old(self)@.touch_start_y
                    },
                    None => final(self)@ == old(self)@,
                },
                Msg::TouchStart(Some((x, y))) => final(self)@ == (ModelView {
                    touch_start_x: Some(x),
                    touch_start_y: Some(y),
                    ..old(self)@
                }),
                Msg::TouchStart(None) => final(self)@ == old(self)@,
                Msg::TouchMove => final(self)@ == old(self)@,
                Msg::TouchEnd(_) => match asked_move(old(self)@, msg) {
                    Some(mov) => {
                        &&& attempted(old(self)@.grid, mov, final(self)@.grid)
                        &&& final(self)@.touch_start_x is None
                        &&& final(self)@.touch_start_y is None
                    },
                    None => final(self)@ == old(self)@,
                },
                Msg::NewGame => {
                    &&& fresh(final(self)@.grid)
                    &&& final(self)@.touch_start_x == old(self)@.touch_start_x
                    &&& final(self)@.touch_start_y == old(self)@.touch_start_y
                },
            },
    {
        match msg {
            Msg::KeyDown(key_code) => {
                let arrow = match key_code {
                    37 => Some(Move::Left),
                    38 => Some(Move::Up),
                    39 => Some(Move::Right),
                    40 => Some(Move::Down),
                    _ => None,
                };
                if let Some(a) = arrow {
                    self.make_move(a);
                }
                true
            },
            Msg::TouchStart(touch) => {
                if let Some((x, y)) = touch {
                    self.touch_start_x = Some(x);
                    self.touch_start_y = Some(y);
                }
                true
            },
            Msg::TouchMove => true,
            Msg::TouchEnd(touch) => {
                if self.touch_start_x.is_none() || self.touch_start_y.is_none() {
                    return false;
                }
                let x_start = self.touch_start_x.unwrap();
                let y_start = self.touch_start_y.unwrap();

                let (x, y) = match touch {
                    Some(lifted) => lifted,
                    None => {
                        return false;
                    },
                };
                let dx = x - x_start;
                let dy = y - y_start;
                if magnitude(dx) < TOUCH_MOVE_THRESHOLD && magnitude(dy) < TOUCH_MOVE_THRESHOLD {
                    return false;
                }
                let mov = get_move(dx, dy);
                self.grid.attempt(mov);

                self.touch_start_x = None;
                self.touch_start_y = None;

                true
            },
            Msg::NewGame => {
                self.grid = Grid::default();
                true
            },
        }
    }
}

} // verus!
