//! The mathematical model of the game: a board is four rows of four values,
//! a value is 0 for an empty cell and the tile's number otherwise.
//!
//! Everything here is ghost code: the definitions that the executable code
//! in [`crate::grid`] is proved against.

use vstd::prelude::*;
use vstd::arithmetic::power2::pow2;
use vstd::multiset::Multiset;

verus! {

/// One of the four directions in which the tiles can be pushed.
#[derive(Clone, Copy, Debug, PartialEq, Eq, Structural)]
pub enum Move {
    /// Toward the first column.
    Left,
    /// Toward the last column.
    Right,
    /// Toward the first row.
    Up,
    /// Toward the last row.
    Down,
}

impl Move {
    /// The number of clockwise quarter turns after which a push in this
    /// direction has become a push to the right.
    pub open spec fn turns(self) -> nat {
        match self {
            Move::Right => 0,
            Move::Up => 1,
            Move::Left => 2,
            Move::Down => 3,
        }
    }
}

/// A row of the board as a sequence of four values.
pub open spec fn row_of(row: [u64; 4]) -> Seq<int> {
    Seq::new(4, |j: int| row[j] as int)
}

/// The board as four rows of four values.
pub open spec fn board_of(cells: [[u64; 4]; 4]) -> Seq<Seq<int>> {
    Seq::new(4, |i: int| row_of(cells[i]))
}

/// Four values, none of them negative.
pub open spec fn is_row(r: Seq<int>) -> bool {
    r.len() == 4 && forall|j: int| 0 <= j < 4 ==> r[j] >= 0
}

/// Four rows.
pub open spec fn is_board(b: Seq<Seq<int>>) -> bool {
    b.len() == 4 && forall|i: int| 0 <= i < 4 ==> is_row(#[trigger] b[i])
}

/// The value of a tile: a power of two, 2 at the least.
pub open spec fn is_tile(v: int) -> bool {
    exists|k: nat| k >= 1 && v == #[trigger] pow2(k)
}

/// What a cell can hold: nothing, or a tile.
pub open spec fn is_cell(v: int) -> bool {
    v == 0 || is_tile(v)
}

/// A board of the game: four rows of four cells, each empty or a tile.
pub open spec fn well_formed(b: Seq<Seq<int>>) -> bool {
    is_board(b) && forall|i: int, j: int| 0 <= i < 4 && 0 <= j < 4 ==> is_cell(#[trigger] b[i][j])
}

/// The board turned a quarter turn clockwise.
pub open spec fn rotated(b: Seq<Seq<int>>) -> Seq<Seq<int>> {
    Seq::new(4, |i: int| Seq::new(4, |j: int| b[3 - j][i]))
}

/// The board turned `n` quarter turns clockwise.
pub open spec fn rotated_times(b: Seq<Seq<int>>, n: nat) -> Seq<Seq<int>>
    decreases n,
{
    if n == 0 {
        b
    } else {
        rotated(rotated_times(b, (n - 1) as nat))
    }
}

/// The sum of a sequence of values.
pub open spec fn sum(s: Seq<int>) -> int
    decreases s.len(),
{
    if s.len() == 0 {
        0
    } else {
        sum(s.drop_last()) + s.last()
    }
}

/// The sum of the four cells of a line.
pub open spec fn line_total(line: Seq<int>) -> int {
    line[0] + line[1] + line[2] + line[3]
}

/// The sum of all sixteen cells.
pub open spec fn total(b: Seq<Seq<int>>) -> int {
    line_total(b[0]) + line_total(b[1]) + line_total(b[2]) + line_total(b[3])
}

/// The tiles of a line in their order: its values without the empty cells.
pub open spec fn tiles(line: Seq<int>) -> Seq<int>
    decreases line.len(),
{
    if line.len() == 0 {
        Seq::empty()
    } else if line.last() == 0 {
        tiles(line.drop_last())
    } else {
        tiles(line.drop_last()).push(line.last())
    }
}

/// The tiles after merging toward the end of the sequence. Starting from the
/// end, two equal neighbours become one tile of twice the value; a tile that
/// came out of a merge does not merge again.
pub open spec fn merged(t: Seq<int>) -> Seq<int>
    decreases t.len(),
{
    if t.len() == 0 {
        Seq::empty()
    } else if t.len() >= 2 && t[t.len() - 2] == t[t.len() - 1] {
        merged(t.take(t.len() - 2)).push(2 * t[t.len() - 1])
    } else {
        merged(t.drop_last()).push(t.last())
    }
}

/// The points that merging the tiles earns: the sum of the tiles that come
/// out of a merge.
pub open spec fn gain(t: Seq<int>) -> int
    decreases t.len(),
{
    if t.len() < 2 {
        0
    } else if t[t.len() - 2] == t[t.len() - 1] {
        gain(t.take(t.len() - 2)) + 2 * t[t.len() - 1]
    } else {
        gain(t.drop_last())
    }
}

/// The pairs of tiles that merging makes one tile of, each given by the
/// value that its two tiles hold.
pub open spec fn pairs(t: Seq<int>) -> Seq<int>
    decreases t.len(),
{
    if t.len() < 2 {
        Seq::empty()
    } else if t[t.len() - 2] == t[t.len() - 1] {
        pairs(t.take(t.len() - 2)).push(t[t.len() - 1])
    } else {
        pairs(t.drop_last())
    }
}

/// Every value twice as large.
pub open spec fn doubled(s: Seq<int>) -> Seq<int> {
    Seq::new(s.len(), |k: int| 2 * s[k])
}

/// What a sequence holds and how often, in no order.
pub open spec fn bag(t: Seq<int>) -> Multiset<int>
    decreases t.len(),
{
    if t.len() == 0 {
        Multiset::empty()
    } else {
        bag(t.drop_last()).insert(t.last())
    }
}

/// The tiles at the end of a line of `n` cells, empty cells before them.
pub open spec fn packed(t: Seq<int>, n: nat) -> Seq<int> {
    Seq::new((n - t.len()) as nat, |j: int| 0int) + t
}

/// A line after its tiles were pushed toward its end without merging.
pub open spec fn packed_line(line: Seq<int>) -> Seq<int> {
    packed(tiles(line), line.len())
}

/// The board with every row packed toward its end.
pub open spec fn packed_rows(b: Seq<Seq<int>>) -> Seq<Seq<int>> {
    Seq::new(4, |i: int| packed_line(b[i]))
}

/// A line after its tiles were pushed toward its end.
pub open spec fn slid_line(line: Seq<int>) -> Seq<int> {
    packed(merged(tiles(line)), line.len())
}

/// The points earned by pushing the tiles of a line toward its end.
pub open spec fn line_gain(line: Seq<int>) -> int {
    gain(tiles(line))
}

/// Two cells with their tiles packed toward the second.
pub open spec fn packed_two(a: int, b: int) -> (int, int) {
    if b == 0 {
        (0, a)
    } else {
        (a, b)
    }
}

/// Three cells with their tiles packed toward the third.
pub open spec fn packed_three(a: int, b: int, c: int) -> (int, int, int) {
    let (x, y) = packed_two(a, b);
    if c == 0 {
        (0, x, y)
    } else {
        (x, y, c)
    }
}

/// Four cells with their tiles packed toward the fourth.
pub open spec fn packed_four(a: int, b: int, c: int, d: int) -> (int, int, int, int) {
    let (x, y, z) = packed_three(a, b, c);
    if d == 0 {
        (0, x, y, z)
    } else {
        (x, y, z, d)
    }
}

/// Four packed cells after merging toward the fourth, and the points earned.
pub open spec fn merged_four(a: int, b: int, c: int, d: int) -> ((int, int, int, int), int) {
    if d != 0 && c == d {
        if b != 0 && a == b {
            ((0, 0, 2 * b, 2 * d), 2 * b + 2 * d)
        } else {
            ((0, a, b, 2 * d), 2 * d)
        }
    } else if c != 0 && b == c {
        ((0, a, 2 * c, d), 2 * c)
    } else if b != 0 && a == b {
        ((0, 2 * b, c, d), 2 * b)
    } else {
        ((a, b, c, d), 0)
    }
}

/// A line of four cells after its tiles were pushed toward the fourth, and
/// the points earned, written out without recursion: `slid_line` and
/// `line_gain` for a line of four.
pub open spec fn slid_four(a: int, b: int, c: int, d: int) -> ((int, int, int, int), int) {
    let (w, x, y, z) = packed_four(a, b, c, d);
    merged_four(w, x, y, z)
}

/// The board after a push to the right: every row slid toward its end.
pub open spec fn slid(b: Seq<Seq<int>>) -> Seq<Seq<int>> {
    Seq::new(4, |i: int| slid_line(b[i]))
}

/// The points earned by a push to the right.
pub open spec fn slid_gain(b: Seq<Seq<int>>) -> int {
    line_gain(b[0]) + line_gain(b[1]) + line_gain(b[2]) + line_gain(b[3])
}

/// The `k`-th line of the board along a direction, read so that the tiles
/// travel toward its end: a row for Right, a row read backwards for Left, a
/// column read downwards for Down and upwards for Up.
pub open spec fn lane(b: Seq<Seq<int>>, m: Move, k: int) -> Seq<int> {
    match m {
        Move::Right => Seq::new(4, |p: int| b[k][p]),
        Move::Left => Seq::new(4, |p: int| b[k][3 - p]),
        Move::Down => Seq::new(4, |p: int| b[p][k]),
        Move::Up => Seq::new(4, |p: int| b[3 - p][k]),
    }
}

/// The board after a push in a direction: every lane along that direction
/// slid toward its end.
pub open spec fn moved(b: Seq<Seq<int>>, m: Move) -> Seq<Seq<int>> {
    Seq::new(
        4,
        |i: int|
            Seq::new(
                4,
                |j: int|
                    match m {
                        Move::Right => slid_line(lane(b, m, i))[j],
                        Move::Left => slid_line(lane(b, m, i))[3 - j],
                        Move::Down => slid_line(lane(b, m, j))[i],
                        Move::Up => slid_line(lane(b, m, j))[3 - i],
                    },
            ),
    )
}

/// The points earned by a push in a direction.
pub open spec fn move_gain(b: Seq<Seq<int>>, m: Move) -> int {
    line_gain(lane(b, m, 0)) + line_gain(lane(b, m, 1)) + line_gain(lane(b, m, 2)) + line_gain(
        lane(b, m, 3),
    )
}

/// The points of a push fit a machine word, whatever its direction.
pub open spec fn gains_fit(b: Seq<Seq<int>>) -> bool {
    &&& move_gain(b, Move::Left) <= u64::MAX
    &&& move_gain(b, Move::Right) <= u64::MAX
    &&& move_gain(b, Move::Up) <= u64::MAX
    &&& move_gain(b, Move::Down) <= u64::MAX
}

/// The tiles on the board, in no order.
pub open spec fn values(b: Seq<Seq<int>>) -> Multiset<int> {
    bag(tiles(b[0])).add(bag(tiles(b[1]))).add(bag(tiles(b[2]))).add(bag(tiles(b[3])))
}

/// The pairs of tiles that a push in a direction makes one tile of, each
/// given by the value that its two tiles hold.
pub open spec fn move_pairs(b: Seq<Seq<int>>, m: Move) -> Seq<int> {
    pairs(tiles(lane(b, m, 0))) + pairs(tiles(lane(b, m, 1))) + pairs(tiles(lane(b, m, 2)))
        + pairs(tiles(lane(b, m, 3)))
}

/// A push in this direction changes the board.
pub open spec fn can_move(b: Seq<Seq<int>>, m: Move) -> bool {
    moved(b, m) != b
}

/// No push changes the board: the game is lost.
pub open spec fn stuck(b: Seq<Seq<int>>) -> bool {
    &&& !can_move(b, Move::Left)
    &&& !can_move(b, Move::Right)
    &&& !can_move(b, Move::Up)
    &&& !can_move(b, Move::Down)
}

/// No cell is empty.
pub open spec fn full(b: Seq<Seq<int>>) -> bool {
    forall|i: int, j: int| 0 <= i < 4 && 0 <= j < 4 ==> b[i][j] != 0
}

/// The empty cells among the first `n` cells in reading order, each as its
/// row and its column.
pub open spec fn empty_cells_upto(b: Seq<Seq<int>>, n: nat) -> Seq<(usize, usize)>
    decreases n,
{
    if n == 0 {
        Seq::empty()
    } else {
        let rest = empty_cells_upto(b, (n - 1) as nat);
        let i = (n - 1) / 4;
        let j = (n - 1) % 4;
        if b[i][j] == 0 {
            rest.push((i as usize, j as usize))
        } else {
            rest
        }
    }
}

/// The empty cells of the board in reading order.
pub open spec fn empty_cells(b: Seq<Seq<int>>) -> Seq<(usize, usize)> {
    empty_cells_upto(b, 16)
}

/// Every cell is empty or holds a 2 or a 4, as on a board on which no two
/// tiles have merged yet.
pub open spec fn only_new_tiles(b: Seq<Seq<int>>) -> bool {
    forall|i: int, j: int|
        0 <= i < 4 && 0 <= j < 4 ==> b[i][j] == 0 || b[i][j] == 2 || b[i][j] == 4
}

/// The board with the value `v` in row `i`, column `j`.
pub open spec fn with_tile(b: Seq<Seq<int>>, i: int, j: int, v: int) -> Seq<Seq<int>> {
    b.update(i, b[i].update(j, v))
}

/// `after` is `before` with one new tile, a 2 or a 4, in a cell that was empty.
pub open spec fn is_spawn(before: Seq<Seq<int>>, after: Seq<Seq<int>>) -> bool {
    exists|i: int, j: int, v: int|
        0 <= i < 4 && 0 <= j < 4 && before[i][j] == 0 && (v == 2 || v == 4) && after
            == #[trigger] with_tile(before, i, j, v)
}

} // verus!
