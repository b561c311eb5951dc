//! The board, its moves and its score.

use vstd::prelude::*;
use rand::distributions::Bernoulli;
use crate::board::{
    board_of, can_move, empty_cells, empty_cells_upto, full, gain, gains_fit, is_board, is_spawn,
    merged, move_gain, moved, only_new_tiles, packed_line, packed_rows, rotated, rotated_times,
    row_of, slid, slid_gain, stuck, tiles, total, well_formed, with_tile, Move,
};
use crate::laws::{
    lemma_bare_board, lemma_board_of_is_board, lemma_empty_cells, lemma_gain_within_total,
    lemma_gains_fit,
    lemma_move_by_turning, lemma_move_keeps_total, lemma_move_keeps_well_formed,
    lemma_move_leaves_room, lemma_spawn_fills_one, lemma_spawn_keeps_well_formed,
    lemma_spawn_total, lemma_still_earns_nothing,
};
use crate::lines::{lemma_tiles_front, lemma_tiles_nonzero};
use crate::pass::{
    lemma_merge_done, lemma_merge_step, lemma_rows_gain, merge_state, rows_gain, rows_total,
};
use crate::random::{choose_cell, throw_coin};

verus! {

/// Of ten new tiles, nine are a 2 and one is a 4.
pub const CHANCE_FOR_TWO: u32 = 9;

/// The number of tiles of which `CHANCE_FOR_TWO` are a 2.
pub const CHANCE_OUT_OF: u32 = 10;

/// The board of a game and the points earned so far.
#[derive(PartialEq, Debug)]
pub struct Grid {
    /// The sixteen cells, row by row; 0 is an empty cell.
    pub cells: [[u64; 4]; 4],
    score: u64,
}

/// What an attempted move came to.
#[derive(Debug, PartialEq, Eq, Structural)]
pub enum GameStatus {
    /// The move was made and another move is possible.
    Accepted,
    /// The move would not change the board and was not made.
    InvalidMove,
    /// The move was made and no further move is possible.
    Lost,
}

/// What a `Grid` stands for: its board and its score as numbers.
pub struct GridView {
    pub board: Seq<Seq<int>>,
    pub score: int,
}

impl View for Grid {
    type V = GridView;

    closed spec fn view(&self) -> GridView {
        GridView { board: board_of(self.cells), score: self.score as int }
    }
}

impl Move {
    /// The number of quarter turns that make this direction a push to the right.
    pub fn get_number(&self) -> (n: usize)
        ensures
            n == self.turns(),
    {
        match self {
            Move::Right => 0,
            Move::Up => 1,
            Move::Left => 2,
            Move::Down => 3,
        }
    }
}

impl Grid {
    /// A game on the given board, with no points yet.
    pub fn new(cells: [[u64; 4]; 4]) -> (g: Self)
        ensures
            g@.board == board_of(cells),
            g@.score == 0,
    {
        Self { cells, score: 0 }
    }

    /// A new game: an empty board with two new tiles, and no points.
    pub fn new_random() -> (g: Self)
        ensures
            g@.score == 0,
            empty_cells(g@.board).len() == 14,
            only_new_tiles(g@.board),
            well_formed(g@.board),
    {
        let cells = [[0, 0, 0, 0], [0, 0, 0, 0], [0, 0, 0, 0], [0, 0, 0, 0]];
        let mut grid = Self::new(cells);
        let ghost bare = grid@.board;
        grid.insert_random_cell();
        let ghost one = grid@.board;
        grid.insert_random_cell();
        proof {
            lemma_bare_board(bare, 16);
            lemma_spawn_fills_one(bare, one);
            lemma_empty_cells(one);
            lemma_spawn_fills_one(one, grid@.board);
        }
        grid
    }

    /// Makes the move if it changes the board: pushes the tiles, adds the
    /// points that the merges earn, puts one new tile on the board and tells
    /// whether the game is lost. A move that changes nothing is not made.
    ///
    /// The sums that a move forms must fit a machine word: the score with
    /// the points earned, and, for the check whether the game is lost, the
    /// cells with the new tile. `within_limits` tests as much for every move,
    /// and `lemma_within_limits` shows that it does.
    pub fn attempt(&mut self, mov: Move) -> (status: GameStatus)
        requires
            can_move(old(self)@.board, mov) ==> old(self)@.score + move_gain(
                old(self)@.board,
                mov,
            ) <= u64::MAX,
            can_move(old(self)@.board, mov) ==> total(old(self)@.board) + 4 <= u64::MAX,
        ensures
            !can_move(old(self)@.board, mov) ==> status == GameStatus::InvalidMove && final(self)@
                == old(self)@,
            can_move(old(self)@.board, mov) ==> {
                &&& is_spawn(moved(old(self)@.board, mov), final(self)@.board)
                &&& final(self)@.score == old(self)@.score + move_gain(old(self)@.board, mov)
                &&& status == if stuck(final(self)@.board) {
                    GameStatus::Lost
                } else {
                    GameStatus::Accepted
                }
                &&& total(final(self)@.board) == total(old(self)@.board) + 2 || total(
                    final(self)@.board,
                ) == total(old(self)@.board) + 4
            },
            final(self)@.score >= old(self)@.score,
            well_formed(old(self)@.board) ==> well_formed(final(self)@.board),
    {
        let ghost before = self@.board;
        proof {
            lemma_board_of_is_board(self.cells);
            lemma_gain_within_total(before, mov);
            if !can_move(before, mov) {
                lemma_still_earns_nothing(before, mov);
            }
        }
        if !self.move_is_valid(mov) {
            return GameStatus::InvalidMove;
        }
        let (new_cells, score_increase) = Self::make_move(self.cells, mov);
        self.cells = new_cells;
        self.score += score_increase;

        proof {
            lemma_move_keeps_total(before, mov);
            lemma_move_leaves_room(before, mov);
        }
        self.insert_random_cell();
        proof {
            let after = self@.board;
            let (i, j, v) = choose|i: int, j: int, v: int|
                0 <= i < 4 && 0 <= j < 4 && moved(before, mov)[i][j] == 0 && (v == 2 || v == 4)
                    && after == #[trigger] with_tile(moved(before, mov), i, j, v);
            lemma_spawn_total(moved(before, mov), i, j, v);
            lemma_gain_within_total(after, Move::Left);
            lemma_gain_within_total(after, Move::Right);
            lemma_gain_within_total(after, Move::Up);
            lemma_gain_within_total(after, Move::Down);
            if well_formed(before) {
                lemma_move_keeps_well_formed(before, mov);
            }
        }
        if self.has_player_lost() {
            return GameStatus::Lost;
        }
        GameStatus::Accepted
    }

    /// Puts one new tile into an empty cell picked at random: a 2 nine times
    /// in ten, a 4 otherwise. Does nothing on a full board.
    pub fn insert_random_cell(&mut self)
        ensures
            final(self)@.score == old(self)@.score,
            full(old(self)@.board) ==> final(self)@.board == old(self)@.board,
            !full(old(self)@.board) ==> is_spawn(old(self)@.board, final(self)@.board),
            well_formed(old(self)@.board) ==> well_formed(final(self)@.board),
    {
        if self.is_board_full() {
            return;
        }
        let mut rng = rand::thread_rng();
        let bern = Bernoulli::from_ratio(CHANCE_FOR_TWO, CHANCE_OUT_OF).unwrap();
        let roll = throw_coin(&bern, &mut rng);
        let empty_cells = Self::get_empty_cells(self.cells);
        proof {
            lemma_empty_cells(self@.board);
        }
        // The board is not full, so there is a cell to choose.
        let cell = choose_cell(&empty_cells, &mut rng).unwrap();
        self.place_tile(cell, roll);
        proof {
            if well_formed(old(self)@.board) {
                lemma_spawn_keeps_well_formed(old(self)@.board, self@.board);
            }
        }
    }

    /// Puts a new tile into the cell in row `cell.0`, column `cell.1`: a 2 if
    /// `roll` is true, a 4 otherwise.
    pub fn place_tile(&mut self, cell: (usize, usize), roll: bool)
        requires
            cell.0 < 4,
            cell.1 < 4,
        ensures
            final(self)@.score == old(self)@.score,
            final(self)@.board == with_tile(
                old(self)@.board,
                cell.0 as int,
                cell.1 as int,
                if roll {
                    2
                } else {
                    4
                },
            ),
    {
        let val: u64 = if roll { 2 } else { 4 };
        let (x, y) = cell;
        self.cells[x][y] = val;
        proof {
            assert(self@.board =~~= with_tile(old(self)@.board, x as int, y as int, val as int));
        }
    }

    /// The sixteen cells, row by row; 0 is an empty cell.
    pub fn cells(&self) -> (c: [[u64; 4]; 4])
        ensures
            board_of(c) == self@.board,
    {
        self.cells
    }

    /// The board that a `Grid` stands for has four rows of four values, none
    /// of them negative.
    pub proof fn lemma_is_board(&self)
        ensures
            is_board(self@.board),
            0 <= self@.score <= u64::MAX,
    {
    }

    /// Where the score, the cells and one more tile add up within a machine
    /// word, every move can be attempted and the game can be asked whether it
    /// is lost: a move earns no more than the cells add up to.
    pub proof fn lemma_within_limits(&self, mov: Move)
        requires
            self@.score + total(self@.board) + 4 <= u64::MAX,
        ensures
            self@.score + move_gain(self@.board, mov) <= u64::MAX,
            total(self@.board) + 4 <= u64::MAX,
            gains_fit(self@.board),
    {
        lemma_gain_within_total(self@.board, mov);
        lemma_gains_fit(self@.board);
    }

    /// Whether the score, the cells and one more tile add up within a machine
    /// word. Where they do, no sum that `attempt` or `has_player_lost` forms
    /// can overflow, whatever the direction: see `lemma_within_limits`.
    pub fn within_limits(&self) -> (ok: bool)
        ensures
            ok == (self@.score + total(self@.board) + 4 <= u64::MAX),
    {
        let ghost b = self@.board;
        let mut sum: u128 = self.score as u128 + 4;
        for i in 0..4usize
            invariant
                b == board_of(self.cells),
                sum == self.score + 4 + rows_total(b, i as nat),
                sum <= (4 * i + 1) * 0xffff_ffff_ffff_ffff + 4,
        {
            let row = self.cells[i];
            sum = sum + row[0] as u128 + row[1] as u128 + row[2] as u128 + row[3] as u128;
        }
        proof {
            reveal_with_fuel(rows_total, 5);
        }
        sum <= u64::MAX as u128
    }

    /// The points earned so far.
    pub fn get_score(&self) -> (s: u64)
        ensures
            s == self@.score,
    {
        self.score
    }

    /// Whether a push in this direction changes the board.
    pub fn move_is_valid(&self, mov: Move) -> (valid: bool)
        requires
            move_gain(self@.board, mov) <= u64::MAX,
        ensures
            valid == can_move(self@.board, mov),
    {
        !Self::same_cells(self.cells, (Self::make_move(self.cells, mov)).0)
    }

    /// Whether the game is lost: no push in any direction changes the board.
    ///
    /// The points of a push in each direction must fit a machine word, as
    /// they do where the cells add up within one: see `lemma_within_limits`.
    pub fn has_player_lost(&self) -> (lost: bool)
        requires
            gains_fit(self@.board),
        ensures
            lost == stuck(self@.board),
    {
        !(self.move_is_valid(Move::Left) || self.move_is_valid(Move::Right) || self.move_is_valid(
            Move::Up,
        ) || self.move_is_valid(Move::Down))
    }

    /// The board after a push in a direction, and the points that it earns.
    pub fn make_move(cells: [[u64; 4]; 4], mov: Move) -> (r: ([[u64; 4]; 4], u64))
        requires
            move_gain(board_of(cells), mov) <= u64::MAX,
        ensures
            board_of(r.0) == moved(board_of(cells), mov),
            r.1 == move_gain(board_of(cells), mov),
    {
        proof {
            lemma_move_by_turning(board_of(cells), mov);
        }
        let rotation = mov.get_number();
        let (cells, score) = Self::handle_move(cells, rotation);
        (cells, score)
    }

    /// Turns the board `rotation` quarter turns, pushes to the right, and
    /// turns the board on to a full turn.
    pub fn handle_move(cells: [[u64; 4]; 4], rotation: usize) -> (r: ([[u64; 4]; 4], u64))
        requires
            rotation <= 4,
            slid_gain(rotated_times(board_of(cells), rotation as nat)) <= u64::MAX,
        ensures
            board_of(r.0) == rotated_times(
                slid(rotated_times(board_of(cells), rotation as nat)),
                (4 - rotation) as nat,
            ),
            r.1 == slid_gain(rotated_times(board_of(cells), rotation as nat)),
    {
        let rotated = Self::rotate_times(cells, rotation);
        let (cells, score) = Self::mov(rotated);
        let rotated_back = Self::rotate_times(cells, 4 - rotation);
        (rotated_back, score)
    }

    /// Turns the board `n` quarter turns clockwise.
    pub fn rotate_times(cells: [[u64; 4]; 4], n: usize) -> (r: [[u64; 4]; 4])
        ensures
            board_of(r) == rotated_times(board_of(cells), n as nat),
    {
        let mut rotated_cells = cells;
        for i in 0..n
            invariant
                board_of(rotated_cells) == rotated_times(board_of(cells), i as nat),
        {
            rotated_cells = Self::rotate(rotated_cells);
        }
        rotated_cells
    }

    /// Whether two boards hold the same values.
    fn same_cells(a: [[u64; 4]; 4], b: [[u64; 4]; 4]) -> (same: bool)
        ensures
            same == (board_of(a) == board_of(b)),
    {
        for i in 0..4usize
            invariant
                forall|x: int, y: int| 0 <= x < i && 0 <= y < 4 ==> a[x][y] == b[x][y],
        {
            for j in 0..4usize
                invariant
                    0 <= i < 4,
                    forall|x: int, y: int| 0 <= x < i && 0 <= y < 4 ==> a[x][y] == b[x][y],
                    forall|y: int| 0 <= y < j ==> a[i as int][y] == b[i as int][y],
            {
                if a[i][j] != b[i][j] {
                    proof {
                        assert(board_of(a)[i as int][j as int] != board_of(b)[i as int][j as int]);
                    }
                    return false;
                }
            }
        }
        proof {
            assert(board_of(a) =~~= board_of(b));
        }
        true
    }

    /// Whether no cell is empty.
    pub fn is_board_full(&self) -> (is_full: bool)
        ensures
            is_full == full(self@.board),
    {
        for i in 0..4usize
            invariant
                forall|x: int, y: int| 0 <= x < i && 0 <= y < 4 ==> self.cells[x][y] != 0,
        {
            for j in 0..4usize
                invariant
                    0 <= i < 4,
                    forall|x: int, y: int| 0 <= x < i && 0 <= y < 4 ==> self.cells[x][y] != 0,
                    forall|y: int| 0 <= y < j ==> self.cells[i as int][y] != 0,
            {
                if self.cells[i][j] == 0 {
                    proof {
                        assert(self@.board[i as int][j as int] == 0);
                    }
                    return false;
                }
            }
        }
        true
    }

    /// The empty cells in reading order, each as its row and its column.
    pub fn get_empty_cells(cells: [[u64; 4]; 4]) -> (r: Vec<(usize, usize)>)
        ensures
            r@ == empty_cells(board_of(cells)),
    {
        let mut empty_cells: Vec<(usize, usize)> = Vec::new();

        for i in 0..4usize
            invariant
                empty_cells@ == empty_cells_upto(board_of(cells), (4 * i) as nat),
        {
            for j in 0..4usize
                invariant
                    0 <= i < 4,
                    empty_cells@ == empty_cells_upto(board_of(cells), (4 * i + j) as nat),
            {
                if cells[i][j] == 0 {
                    empty_cells.push((i, j))
                }
            }
        }

        empty_cells
    }

    /// The row read from its other end.
    fn reverse_row(row: [u64; 4]) -> (r: [u64; 4])
        ensures
            forall|j: int| 0 <= j < 4 ==> r[j] == row[3 - j],
    {
        let mut r = row;
        for j in 0..2usize
            invariant
                forall|k: int|
                    0 <= k < 4 ==> r[k] == (if k < j || k > 3 - j {
                        row[3 - k]
                    } else {
                        row[k]
                    }),
        {
            let temp = r[j];
            r[j] = r[3 - j];
            r[3 - j] = temp;
        }
        r
    }

    /// Pushes the tiles of every row to the right and merges equal neighbours,
    /// each tile at most once. Returns the new board and the points earned.
    pub fn mov(cells: [[u64; 4]; 4]) -> (r: ([[u64; 4]; 4], u64))
        requires
            slid_gain(board_of(cells)) <= u64::MAX,
        ensures
            board_of(r.0) == slid(board_of(cells)),
            r.1 == slid_gain(board_of(cells)),
    {
        let ghost b = board_of(cells);
        let mut cells = Self::mov_all_cells_to_the_side(cells);
        let mut score_increase: u64 = 0;

        proof {
            lemma_rows_gain(b, 0);
            assert forall|a: int| 0 <= a < 4 implies row_of(#[trigger] cells[a]) == packed_line(
                b[a],
            ) by {
                assert(board_of(cells)[a] == row_of(cells[a]));
            }
        }
        for i in 0..4usize
            invariant
                b.len() == 4,
                forall|a: int, p: int| 0 <= a < 4 && 0 <= p < b[a].len() ==> b[a][p] >= 0,
                forall|a: int| 0 <= a < 4 ==> (#[trigger] b[a]).len() == 4,
                forall|a: int|
                    0 <= a < i ==> tiles(row_of(#[trigger] cells[a])) == merged(tiles(b[a])),
                forall|a: int| i <= a < 4 ==> row_of(#[trigger] cells[a]) == packed_line(b[a]),
                score_increase == rows_gain(b, i as nat),
                slid_gain(b) <= u64::MAX,
        {
            let old_row = cells[i];
            let mut new_row = old_row;

            let ghost line = row_of(old_row);
            let ghost z: int = 4 - tiles(b[i as int]).len();
            let ghost base: int = score_increase as int;
            // The tiles that the pass has not settled yet are `line[z..q]`.
            let ghost mut q: int = 4;
            proof {
                lemma_tiles_nonzero(b[i as int]);
                lemma_rows_gain(b, (i + 1) as nat);
                assert(line.subrange(z, 4) =~= tiles(b[i as int]));
            }
            let mut j: usize = 4;
            while j > 1
                invariant
                    1 <= j <= 4,
                    line == row_of(old_row),
                    merge_state(line, z, q, row_of(new_row), j as int, score_increase - base),
                    0 <= base,
                    base + gain(line.subrange(z, 4)) <= u64::MAX,
                decreases j,
            {
                proof {
                    q = lemma_merge_step(
                        line,
                        z,
                        q,
                        row_of(new_row),
                        j as int,
                        score_increase - base,
                    );
                }
                let ghost before = new_row;
                j -= 1;
                if new_row[j] == old_row[j - 1] {
                    new_row[j] *= 2;
                    score_increase += new_row[j];
                    new_row[j - 1] = 0;
                    proof {
                        assert(row_of(new_row) =~= row_of(before).update(
                            j as int,
                            2 * before[j as int],
                        ).update(j - 1, 0));
                    }
                }
            }
            proof {
                lemma_merge_done(line, z, q, row_of(new_row), score_increase - base);
            }
            cells[i] = new_row;
        }
        let cells = Self::mov_all_cells_to_the_side(cells);
        proof {
            assert forall|a: int| 0 <= a < 4 implies #[trigger] board_of(cells)[a] == slid(
                b,
            )[a] by {}
        }
        (cells, score_increase)
    }

    /// Packs the tiles of every row toward the row's end, in their order and
    /// without merging.
    pub fn mov_all_cells_to_the_side(cells: [[u64; 4]; 4]) -> (r: [[u64; 4]; 4])
        ensures
            board_of(r) == packed_rows(board_of(cells)),
    {
        let mut cells = cells;
        let ghost start = cells;
        for i in 0..4usize
            invariant
                forall|a: int|
                    0 <= a < i ==> row_of(#[trigger] cells[a]) == packed_line(row_of(start[a])),
                forall|a: int| i <= a < 4 ==> #[trigger] cells[a] == start[a],
        {
            let mut row = cells[i];
            let ghost line = row_of(row);
            // The tiles of the cells from `j` on stand packed in the cells from `k` on.
            let ghost mut k: int = if row[3] == 0 { 4 } else { 3 };
            let mut j: usize = 3;
            proof {
                lemma_tiles_front(line.subrange(3, 4));
            }
            while j > 0
                invariant
                    line.len() == 4,
                    0 <= j <= 3,
                    j <= k <= 4,
                    forall|p: int| 0 <= p < j ==> row[p] == line[p],
                    forall|p: int| j <= p < k ==> row[p] == 0,
                    forall|p: int| k <= p < 4 ==> row[p] != 0,
                    row_of(row).subrange(k, 4) == tiles(line.subrange(j as int, 4)),
                decreases j,
            {
                j -= 1;
                let temp = row[j];
                row[j] = 0;
                let mut index = j;
                while index < 3
                    invariant
                        j <= index < k <= 4,
                        forall|p: int| j <= p < k ==> row[p] == 0,
                        forall|p: int| k <= p < 4 ==> row[p] != 0,
                    ensures
                        index == k - 1,
                    decreases 3 - index,
                {
                    if row[index + 1] != 0 {
                        break;
                    }
                    index += 1;
                }
                row[index] = temp;
                proof {
                    let rest = line.subrange(j as int, 4);
                    lemma_tiles_front(rest);
                    assert(rest.skip(1) =~= line.subrange(j + 1, 4));
                    if temp != 0 {
                        k = k - 1;
                    }
                }
            }
            proof {
                assert(line.subrange(0, 4) =~= line);
            }
            cells[i] = row;
        }
        cells
    }

    /// Turns the board a quarter turn clockwise.
    pub fn rotate(cells: [[u64; 4]; 4]) -> (r: [[u64; 4]; 4])
        ensures
            board_of(r) == rotated(board_of(cells)),
    {
        let mut cells = cells;
        let ghost start = cells;
        for i in 0..4usize
            invariant
                forall|a: int, b: int|
                    0 <= a < 4 && 0 <= b < 4 ==> #[trigger] cells[a][b] == (if a < i || b < i {
                        start[b][a]
                    } else {
                        start[a][b]
                    }),
        {
            for j in i..4usize
                invariant
                    0 <= i < 4,
                    forall|a: int, b: int|
                        0 <= a < 4 && 0 <= b < 4 ==> #[trigger] cells[a][b] == (if a < i || b < i
                            || (a == i && b < j) || (b == i && a < j) {
                            start[b][a]
                        } else {
                            start[a][b]
                        }),
            {
                let temp = cells[i][j];
                cells[i][j] = cells[j][i];
                cells[j][i] = temp;
            }
        }
        let ghost transposed = cells;
        for i in 0..4usize
            invariant
                forall|a: int, b: int|
                    0 <= a < 4 && 0 <= b < 4 ==> #[trigger] cells[a][b] == (if a < i {
                        transposed[a][3 - b]
                    } else {
                        transposed[a][b]
                    }),
        {
            cells[i] = Self::reverse_row(cells[i]);
        }
        proof {
            assert forall|a: int, b: int| 0 <= a < 4 && 0 <= b < 4 implies cells[a][b] == start[3
                - b][a] by {}
            assert(board_of(cells) =~~= rotated(board_of(start)));
        }
        cells
    }
}

impl Default for Grid {
    /// A new game, as `Grid::new_random` makes it.
    fn default() -> (g: Self)
        ensures
            g@.score == 0,
            empty_cells(g@.board).len() == 14,
            only_new_tiles(g@.board),
            well_formed(g@.board),
    {
        Self::new_random()
    }
}

} // verus!
