//! What holds of every board: of turning it, of pushing its tiles, of new
//! tiles, and of the sums, the values and the empty cells through all of these.

use vstd::prelude::*;
use vstd::arithmetic::power2::{lemma2_to64, pow2};
use crate::board::{
    bag, board_of, can_move, doubled, empty_cells, empty_cells_upto, full, gains_fit, is_board,
    is_cell, is_row, is_spawn, is_tile, lane, line_gain, line_total, merged, move_gain, move_pairs, moved,
    pairs, rotated_times, slid, slid_gain, slid_line, sum, tiles, total, values, well_formed,
    with_tile, Move,
};
use crate::lines::{
    lemma_bag_concat, lemma_bag_tiles_four, lemma_doubled_concat, lemma_line_count,
    lemma_line_gain_bounds, lemma_line_room, lemma_line_unchanged, lemma_merge_keeps_tiles,
    lemma_merged_positive, lemma_slid_line_cells, lemma_slid_line_len, lemma_sum_concat,
    lemma_sum_four, lemma_sum_slid_line, lemma_tiles_nonzero, lemma_tiles_slid_line,
};

verus! {

/// Sixteen machine words are a board.
pub proof fn lemma_board_of_is_board(cells: [[u64; 4]; 4])
    ensures
        is_board(board_of(cells)),
{
    assert forall|i: int| 0 <= i < 4 implies is_row(#[trigger] board_of(cells)[i]) by {}
}

/// Turning `m` times and then `n` times is turning `m + n` times.
pub proof fn lemma_rotated_times_add(b: Seq<Seq<int>>, m: nat, n: nat)
    ensures
        rotated_times(rotated_times(b, m), n) == rotated_times(b, m + n),
    decreases n,
{
    if n > 0 {
        lemma_rotated_times_add(b, m, (n - 1) as nat);
    }
}

/// Four quarter turns bring every board back to itself, and two turns made
/// twice are four turns.
pub proof fn lemma_rotate_round_trip(b: Seq<Seq<int>>)
    requires
        is_board(b),
    ensures
        rotated_times(b, 4) == b,
        rotated_times(rotated_times(b, 2), 2) == rotated_times(b, 4),
{
    reveal_with_fuel(rotated_times, 5);
    let r = rotated_times(b, 4);
    assert forall|i: int| 0 <= i < 4 implies #[trigger] r[i] =~= b[i] by {}
}

/// A pushed line holds no negative value.
pub proof fn lemma_slid_line_is_row(line: Seq<int>)
    requires
        is_row(line),
    ensures
        is_row(slid_line(line)),
{
    lemma_slid_line_len(line);
    lemma_tiles_nonzero(line);
    lemma_merged_positive(tiles(line));
}

/// The lanes of the board after a push are the lanes before it, pushed.
pub proof fn lemma_lanes_of_moved(b: Seq<Seq<int>>, m: Move, k: int)
    requires
        is_board(b),
        0 <= k < 4,
    ensures
        lane(moved(b, m), m, k) == slid_line(lane(b, m, k)),
{
    lemma_slid_line_len(lane(b, m, k));
}

/// The board after a push is a board.
pub proof fn lemma_moved_is_board(b: Seq<Seq<int>>, m: Move)
    requires
        is_board(b),
    ensures
        is_board(moved(b, m)),
{
    assert forall|k: int| 0 <= k < 4 implies is_row(#[trigger] slid_line(lane(b, m, k))) by {
        lemma_slid_line_is_row(lane(b, m, k));
    }
    assert forall|i: int| 0 <= i < 4 implies is_row(#[trigger] moved(b, m)[i]) by {
        assert forall|j: int| 0 <= j < 4 implies moved(b, m)[i][j] >= 0 by {}
    }
}

/// A push in a direction is a push to the right on the board turned by the
/// direction's number of quarter turns, turned on to a full turn afterwards.
pub proof fn lemma_move_by_turning(b: Seq<Seq<int>>, m: Move)
    requires
        is_board(b),
    ensures
        moved(b, m) == rotated_times(
            slid(rotated_times(b, m.turns())),
            (4 - m.turns()) as nat,
        ),
        move_gain(b, m) == slid_gain(rotated_times(b, m.turns())),
{
    reveal_with_fuel(rotated_times, 5);
    let r = rotated_times(b, m.turns());
    let s = slid(r);
    let back = rotated_times(s, (4 - m.turns()) as nat);
    assert forall|i: int| 0 <= i < 4 implies (#[trigger] b[i]).len() == 4 by {
        assert(is_row(b[i]));
    }
    assert forall|i: int| 0 <= i < 4 implies #[trigger] r[i] == lane(
        b,
        m,
        if m == Move::Right || m == Move::Up {
            i
        } else {
            3 - i
        },
    ) by {
        match m {
            Move::Right => {
                assert(r[i] =~= lane(b, m, i));
            },
            Move::Up => {
                assert(r[i] =~= lane(b, m, i));
            },
            Move::Left => {
                assert(r[i] =~= lane(b, m, 3 - i));
            },
            Move::Down => {
                assert(r[i] =~= lane(b, m, 3 - i));
            },
        }
    }
    assert forall|i: int| 0 <= i < 4 implies (#[trigger] s[i]).len() == 4 by {
        lemma_slid_line_len(r[i]);
    }
    assert(r[0].len() == 4 && r[1].len() == 4 && r[2].len() == 4 && r[3].len() == 4);
    assert forall|i: int| 0 <= i < 4 implies #[trigger] back[i] =~= moved(b, m)[i] by {
        assert(s[0].len() == 4 && s[1].len() == 4 && s[2].len() == 4 && s[3].len() == 4);
    }
    assert(back =~= moved(b, m));
}

/// A push that does not change the board earns nothing.
pub proof fn lemma_still_earns_nothing(b: Seq<Seq<int>>, m: Move)
    requires
        is_board(b),
        !can_move(b, m),
    ensures
        move_gain(b, m) == 0,
{
    assert forall|k: int| 0 <= k < 4 implies line_gain(#[trigger] lane(b, m, k)) == 0 by {
        lemma_lanes_of_moved(b, m, k);
        lemma_line_unchanged(lane(b, m, k));
    }
}

/// A push that changes the board leaves an empty cell: after every move
/// that is made there is room for the new tile.
pub proof fn lemma_move_leaves_room(b: Seq<Seq<int>>, m: Move)
    requires
        is_board(b),
        can_move(b, m),
    ensures
        !full(moved(b, m)),
{
    if full(moved(b, m)) {
        assert forall|k: int| 0 <= k < 4 implies slid_line(#[trigger] lane(b, m, k)) == lane(
            b,
            m,
            k,
        ) by {
                lemma_lanes_of_moved(b, m, k);
            assert forall|p: int| 0 <= p < 4 implies lane(moved(b, m), m, k)[p] != 0 by {}
            lemma_line_room(lane(b, m, k));
        }
        assert forall|i: int| 0 <= i < 4 implies #[trigger] moved(b, m)[i] =~= b[i] by {
            assert(is_row(b[i]));
            assert forall|j: int| 0 <= j < 4 implies moved(b, m)[i][j] == b[i][j] by {
                match m {
                    Move::Right => {
                        assert(lane(b, m, i)[j] == b[i][j]);
                    },
                    Move::Left => {
                        assert(lane(b, m, i)[3 - j] == b[i][j]);
                    },
                    Move::Down => {
                        assert(lane(b, m, j)[i] == b[i][j]);
                    },
                    Move::Up => {
                        assert(lane(b, m, j)[3 - i] == b[i][j]);
                    },
                }
            }
        }
        assert(moved(b, m) =~= b);
    }
}

/// The cells of a board add up to what its lanes along any direction add up to.
pub proof fn lemma_total_by_lanes(b: Seq<Seq<int>>, m: Move)
    requires
        is_board(b),
    ensures
        total(b) == sum(lane(b, m, 0)) + sum(lane(b, m, 1)) + sum(lane(b, m, 2)) + sum(
            lane(b, m, 3),
        ),
{
    assert forall|k: int| 0 <= k < 4 implies sum(#[trigger] lane(b, m, k)) == line_total(
        lane(b, m, k),
    ) by {
        lemma_sum_four(lane(b, m, k));
    }
    assert forall|k: int| 0 <= k < 4 implies (#[trigger] b[k]).len() == 4 by {}
}

/// A push keeps the sum of the cells: tiles travel and merge, none is made
/// and none is lost.
pub proof fn lemma_move_keeps_total(b: Seq<Seq<int>>, m: Move)
    requires
        is_board(b),
    ensures
        total(moved(b, m)) == total(b),
{
    lemma_moved_is_board(b, m);
    lemma_total_by_lanes(b, m);
    lemma_total_by_lanes(moved(b, m), m);
    assert forall|k: int| 0 <= k < 4 implies sum(#[trigger] lane(moved(b, m), m, k)) == sum(
        lane(b, m, k),
    ) by {
        lemma_lanes_of_moved(b, m, k);
        lemma_sum_slid_line(lane(b, m, k));
    }
}

/// A push earns nothing negative, and no more than the cells add up to.
pub proof fn lemma_gain_within_total(b: Seq<Seq<int>>, m: Move)
    requires
        is_board(b),
    ensures
        0 <= move_gain(b, m) <= total(b),
{
    lemma_total_by_lanes(b, m);
    assert forall|k: int| 0 <= k < 4 implies 0 <= line_gain(#[trigger] lane(b, m, k)) <= sum(
        lane(b, m, k),
    ) by {
        lemma_line_gain_bounds(lane(b, m, k));
    }
}

/// On a board whose cells add up within a machine word, the points of a
/// push do so too, whatever its direction.
pub proof fn lemma_gains_fit(b: Seq<Seq<int>>)
    requires
        is_board(b),
        total(b) <= u64::MAX,
    ensures
        gains_fit(b),
{
    lemma_gain_within_total(b, Move::Left);
    lemma_gain_within_total(b, Move::Right);
    lemma_gain_within_total(b, Move::Up);
    lemma_gain_within_total(b, Move::Down);
}

/// A new tile adds its value to the sum of the cells.
pub proof fn lemma_spawn_total(b: Seq<Seq<int>>, i: int, j: int, v: int)
    requires
        is_board(b),
        0 <= i < 4,
        0 <= j < 4,
        b[i][j] == 0,
        v >= 0,
    ensures
        is_board(with_tile(b, i, j, v)),
        total(with_tile(b, i, j, v)) == total(b) + v,
{
    let c = with_tile(b, i, j, v);
    assert forall|k: int| 0 <= k < 4 implies is_row(#[trigger] c[k]) && line_total(c[k])
        == line_total(b[k]) + (if k == i {
        v
    } else {
        0
    }) by {}
}

/// The sum of the cells before a move, and the new tile's value, make the
/// sum of the cells after it: merging and travelling change nothing of the
/// sum, and the one new tile is a 2 or a 4.
pub proof fn lemma_mass_conservation(before: Seq<Seq<int>>, m: Move, after: Seq<Seq<int>>)
    requires
        is_board(before),
        is_spawn(moved(before, m), after),
    ensures
        total(after) == total(before) + 2 || total(after) == total(before) + 4,
{
    lemma_moved_is_board(before, m);
    lemma_move_keeps_total(before, m);
    let (i, j, v) = choose|i: int, j: int, v: int|
        0 <= i < 4 && 0 <= j < 4 && moved(before, m)[i][j] == 0 && (v == 2 || v == 4) && after
            == #[trigger] with_tile(moved(before, m), i, j, v);
    lemma_spawn_total(moved(before, m), i, j, v);
}

/// The tiles on a board are the tiles of its lanes along any direction.
pub proof fn lemma_values_by_lanes(b: Seq<Seq<int>>, m: Move)
    requires
        is_board(b),
    ensures
        values(b) == bag(tiles(lane(b, m, 0))).add(bag(tiles(lane(b, m, 1)))).add(
            bag(tiles(lane(b, m, 2))),
        ).add(bag(tiles(lane(b, m, 3)))),
{
    let by_lanes = bag(tiles(lane(b, m, 0))).add(bag(tiles(lane(b, m, 1)))).add(
        bag(tiles(lane(b, m, 2))),
    ).add(bag(tiles(lane(b, m, 3))));
    assert forall|k: int| 0 <= k < 4 implies (#[trigger] b[k]).len() == 4 by {}
    assert forall|v: int| values(b).count(v) == by_lanes.count(v) by {
        lemma_line_count(b[0], v);
        lemma_line_count(b[1], v);
        lemma_line_count(b[2], v);
        lemma_line_count(b[3], v);
        lemma_line_count(lane(b, m, 0), v);
        lemma_line_count(lane(b, m, 1), v);
        lemma_line_count(lane(b, m, 2), v);
        lemma_line_count(lane(b, m, 3), v);
    }
}

/// A push fabricates no value: the tiles after it are the tiles before it
/// but for the pairs that merged, each replaced by one tile of twice the
/// value. And what the push earns is the sum of these new tiles.
pub proof fn lemma_move_keeps_values(b: Seq<Seq<int>>, m: Move)
    requires
        is_board(b),
    ensures
        values(moved(b, m)).add(bag(move_pairs(b, m))).add(bag(move_pairs(b, m))) == values(b).add(
            bag(doubled(move_pairs(b, m))),
        ),
        move_gain(b, m) == sum(doubled(move_pairs(b, m))),
{
    let t0 = tiles(lane(b, m, 0));
    let t1 = tiles(lane(b, m, 1));
    let t2 = tiles(lane(b, m, 2));
    let t3 = tiles(lane(b, m, 3));
    lemma_moved_is_board(b, m);
    lemma_values_by_lanes(b, m);
    lemma_values_by_lanes(moved(b, m), m);
    assert forall|k: int| 0 <= k < 4 implies tiles(#[trigger] lane(moved(b, m), m, k)) == merged(
        tiles(lane(b, m, k)),
    ) by {
        lemma_lanes_of_moved(b, m, k);
        lemma_tiles_slid_line(lane(b, m, k));
    }
    lemma_merge_keeps_tiles(t0);
    lemma_merge_keeps_tiles(t1);
    lemma_merge_keeps_tiles(t2);
    lemma_merge_keeps_tiles(t3);
    lemma_bag_concat(pairs(t0) + pairs(t1) + pairs(t2), pairs(t3));
    lemma_bag_concat(pairs(t0) + pairs(t1), pairs(t2));
    lemma_bag_concat(pairs(t0), pairs(t1));
    lemma_doubled_concat(pairs(t0) + pairs(t1) + pairs(t2), pairs(t3));
    lemma_doubled_concat(pairs(t0) + pairs(t1), pairs(t2));
    lemma_doubled_concat(pairs(t0), pairs(t1));
    let d0 = doubled(pairs(t0));
    let d1 = doubled(pairs(t1));
    let d2 = doubled(pairs(t2));
    let d3 = doubled(pairs(t3));
    lemma_bag_concat(d0 + d1 + d2, d3);
    lemma_bag_concat(d0 + d1, d2);
    lemma_bag_concat(d0, d1);
    lemma_sum_concat(d0 + d1 + d2, d3);
    lemma_sum_concat(d0 + d1, d2);
    lemma_sum_concat(d0, d1);
    let after = values(moved(b, m)).add(bag(move_pairs(b, m))).add(bag(move_pairs(b, m)));
    let before = values(b).add(bag(doubled(move_pairs(b, m))));
    assert forall|v: int| after.count(v) == before.count(v) by {
        assert(bag(merged(t0)).add(bag(pairs(t0))).add(bag(pairs(t0))).count(v) == bag(t0).add(
            bag(d0),
        ).count(v));
        assert(bag(merged(t1)).add(bag(pairs(t1))).add(bag(pairs(t1))).count(v) == bag(t1).add(
            bag(d1),
        ).count(v));
        assert(bag(merged(t2)).add(bag(pairs(t2))).add(bag(pairs(t2))).count(v) == bag(t2).add(
            bag(d2),
        ).count(v));
        assert(bag(merged(t3)).add(bag(pairs(t3))).add(bag(pairs(t3))).count(v) == bag(t3).add(
            bag(d3),
        ).count(v));
    }
}

/// A new tile joins the tiles on the board, and nothing else changes.
pub proof fn lemma_spawn_values(b: Seq<Seq<int>>, i: int, j: int, v: int)
    requires
        is_board(b),
        0 <= i < 4,
        0 <= j < 4,
        b[i][j] == 0,
        v != 0,
    ensures
        values(with_tile(b, i, j, v)) == values(b).insert(v),
{
    let c = with_tile(b, i, j, v);
    assert forall|k: int| 0 <= k < 4 implies (#[trigger] b[k]).len() == 4 by {}
    lemma_bag_tiles_four(b[0]);
    lemma_bag_tiles_four(b[1]);
    lemma_bag_tiles_four(b[2]);
    lemma_bag_tiles_four(b[3]);
    lemma_bag_tiles_four(c[0]);
    lemma_bag_tiles_four(c[1]);
    lemma_bag_tiles_four(c[2]);
    lemma_bag_tiles_four(c[3]);
}

/// No move fabricates a value: the tiles after a move are the tiles before
/// it and one new tile, a 2 or a 4, but for the pairs that merged, each
/// replaced by one tile of twice the value.
pub proof fn lemma_no_value_fabrication(before: Seq<Seq<int>>, m: Move, after: Seq<Seq<int>>)
    requires
        is_board(before),
        is_spawn(moved(before, m), after),
    ensures
        ({
            let merging = bag(move_pairs(before, m));
            let made = bag(doubled(move_pairs(before, m)));
            ||| values(after).add(merging).add(merging) == values(before).add(made).insert(2)
            ||| values(after).add(merging).add(merging) == values(before).add(made).insert(4)
        }),
{
    lemma_moved_is_board(before, m);
    lemma_move_keeps_values(before, m);
    let (i, j, v) = choose|i: int, j: int, v: int|
        0 <= i < 4 && 0 <= j < 4 && moved(before, m)[i][j] == 0 && (v == 2 || v == 4) && after
            == #[trigger] with_tile(moved(before, m), i, j, v);
    lemma_spawn_values(moved(before, m), i, j, v);
    let merging = bag(move_pairs(before, m));
    let made = bag(doubled(move_pairs(before, m)));
    let pushed = values(moved(before, m)).add(merging).add(merging);
    assert forall|x: int|
        values(after).add(merging).add(merging).count(x) == values(before).add(made).insert(
            v,
        ).count(x) by {
        assert(pushed.count(x) == values(before).add(made).count(x));
    }
    assert(values(after).add(merging).add(merging) =~= values(before).add(made).insert(v));
}

/// A push leaves a board of the game a board of the game: every cell is
/// still empty or a power of two.
pub proof fn lemma_move_keeps_well_formed(b: Seq<Seq<int>>, m: Move)
    requires
        well_formed(b),
    ensures
        well_formed(moved(b, m)),
{
    lemma_moved_is_board(b, m);
    assert forall|k: int| 0 <= k < 4 implies slid_line(#[trigger] lane(b, m, k)).len() == 4 && (
    forall|p: int| 0 <= p < 4 ==> is_cell(#[trigger] slid_line(lane(b, m, k))[p])) by {
        let line = lane(b, m, k);
        assert forall|p: int| 0 <= p < line.len() implies is_cell(#[trigger] line[p]) by {
            assert(is_cell(b[k][p]));
            assert(is_cell(b[k][3 - p]));
            assert(is_cell(b[p][k]));
            assert(is_cell(b[3 - p][k]));
        }
        lemma_slid_line_cells(line);
    }
    assert forall|i: int, j: int| 0 <= i < 4 && 0 <= j < 4 implies is_cell(
        #[trigger] moved(b, m)[i][j],
    ) by {
        assert(slid_line(lane(b, m, i)).len() == 4);
        assert(slid_line(lane(b, m, j)).len() == 4);
        match m {
            Move::Right => {
                assert(is_cell(slid_line(lane(b, m, i))[j]));
            },
            Move::Left => {
                assert(is_cell(slid_line(lane(b, m, i))[3 - j]));
            },
            Move::Down => {
                assert(is_cell(slid_line(lane(b, m, j))[i]));
            },
            Move::Up => {
                assert(is_cell(slid_line(lane(b, m, j))[3 - i]));
            },
        }
    }
}

/// A new tile leaves a board of the game a board of the game.
pub proof fn lemma_spawn_keeps_well_formed(before: Seq<Seq<int>>, after: Seq<Seq<int>>)
    requires
        well_formed(before),
        is_spawn(before, after),
    ensures
        well_formed(after),
{
    let (i, j, v) = choose|i: int, j: int, v: int|
        0 <= i < 4 && 0 <= j < 4 && before[i][j] == 0 && (v == 2 || v == 4) && after
            == #[trigger] with_tile(before, i, j, v);
    lemma_spawn_total(before, i, j, v);
    lemma2_to64();
    assert(is_tile(2)) by {
        assert(2 == pow2(1));
    }
    assert(is_tile(4)) by {
        assert(4 == pow2(2));
    }
    assert forall|x: int, y: int| 0 <= x < 4 && 0 <= y < 4 implies is_cell(
        #[trigger] after[x][y],
    ) by {
        assert(is_row(before[x]));
        if x == i && y == j {
        } else {
            assert(after[x][y] == before[x][y]);
            assert(is_cell(before[x][y]));
        }
    }
}

/// The empty cells among the first `n` are those that hold 0.
pub proof fn lemma_empty_cells_upto(b: Seq<Seq<int>>, n: nat)
    requires
        n <= 16,
    ensures
        forall|p: (usize, usize)|
            empty_cells_upto(b, n).contains(p) <==> p.0 < 4 && p.1 < 4 && 4 * p.0 + p.1 < n
                && b[p.0 as int][p.1 as int] == 0,
        empty_cells_upto(b, n).len() <= n,
    decreases n,
{
    if n > 0 {
        let rest = empty_cells_upto(b, (n - 1) as nat);
        lemma_empty_cells_upto(b, (n - 1) as nat);
        let i = (n - 1) / 4;
        let j = (n - 1) % 4;
        let here = (i as usize, j as usize);
        let all = empty_cells_upto(b, n);
        assert forall|p: (usize, usize)| all.contains(p) <==> p.0 < 4 && p.1 < 4 && 4 * p.0 + p.1
            < n && b[p.0 as int][p.1 as int] == 0 by {
            if b[i][j] == 0 {
                assert(all == rest.push(here));
                assert(all[rest.len() as int] == here);
                if all.contains(p) {
                    let x = choose|x: int| 0 <= x < all.len() && all[x] == p;
                    if x < rest.len() {
                        assert(rest[x] == p);
                        assert(rest.contains(p));
                    }
                }
                if rest.contains(p) {
                    let x = choose|x: int| 0 <= x < rest.len() && rest[x] == p;
                    assert(all[x] == p);
                }
            }
        }
    }
}

/// The list of empty cells holds exactly the cells with 0, and the board is
/// full exactly when the list is empty.
pub proof fn lemma_empty_cells(b: Seq<Seq<int>>)
    ensures
        forall|p: (usize, usize)|
            empty_cells(b).contains(p) <==> p.0 < 4 && p.1 < 4 && b[p.0 as int][p.1 as int] == 0,
        full(b) <==> empty_cells(b).len() == 0,
        empty_cells(b).len() <= 16,
{
    lemma_empty_cells_upto(b, 16);
    let all = empty_cells(b);
    if all.len() > 0 {
        assert(all.contains(all[0]));
    }
    if !full(b) {
        let (i, j) = choose|i: int, j: int| 0 <= i < 4 && 0 <= j < 4 && b[i][j] == 0;
        assert(all.contains((i as usize, j as usize)));
    }
}

/// Among the first `n` cells, a new tile takes one off the empty cells if
/// its cell is among them.
pub proof fn lemma_spawn_count_upto(b: Seq<Seq<int>>, i: int, j: int, v: int, n: nat)
    requires
        is_board(b),
        0 <= i < 4,
        0 <= j < 4,
        b[i][j] == 0,
        v != 0,
        n <= 16,
    ensures
        empty_cells_upto(with_tile(b, i, j, v), n).len() == empty_cells_upto(b, n).len() - (if n
            > 4 * i + j {
            1int
        } else {
            0int
        }),
    decreases n,
{
    if n > 0 {
        lemma_spawn_count_upto(b, i, j, v, (n - 1) as nat);
        let x = (n - 1) / 4;
        let y = (n - 1) % 4;
        assert(is_row(b[x]));
        if x == i && y == j {
            assert(n - 1 == 4 * i + j);
        } else {
            assert(with_tile(b, i, j, v)[x][y] == b[x][y]);
        }
    }
}

/// A new tile leaves one empty cell fewer.
pub proof fn lemma_spawn_fills_one(before: Seq<Seq<int>>, after: Seq<Seq<int>>)
    requires
        is_board(before),
        is_spawn(before, after),
    ensures
        empty_cells(after).len() == empty_cells(before).len() - 1,
        is_board(after),
{
    let (i, j, v) = choose|i: int, j: int, v: int|
        0 <= i < 4 && 0 <= j < 4 && before[i][j] == 0 && (v == 2 || v == 4) && after
            == #[trigger] with_tile(before, i, j, v);
    lemma_spawn_count_upto(before, i, j, v, 16);
}

/// On a board without tiles each of the first `n` cells is empty.
pub proof fn lemma_bare_board(b: Seq<Seq<int>>, n: nat)
    requires
        n <= 16,
        forall|i: int, j: int| 0 <= i < 4 && 0 <= j < 4 ==> b[i][j] == 0,
    ensures
        empty_cells_upto(b, n).len() == n,
    decreases n,
{
    if n > 0 {
        lemma_bare_board(b, (n - 1) as nat);
    }
}

} // verus!
