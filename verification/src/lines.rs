//! What holds of every line: of its tiles, of merging them, of their sums
//! and of the values among them.

use vstd::prelude::*;
use vstd::arithmetic::power2::{lemma_pow2_unfold, pow2};
use vstd::multiset::Multiset;
use crate::board::{
    bag, doubled, gain, is_cell, is_tile, line_gain, line_total, merged, packed, pairs, slid_four,
    slid_line, sum, tiles,
};

verus! {

/// The tiles of a line that is made of two parts are the tiles of the first
/// part followed by those of the second.
pub proof fn lemma_tiles_concat(a: Seq<int>, b: Seq<int>)
    ensures
        tiles(a + b) == tiles(a) + tiles(b),
    decreases b.len(),
{
    if b.len() == 0 {
    } else {
        lemma_tiles_concat(a, b.drop_last());
        assert((a + b).drop_last() =~= a + b.drop_last());
    }
}

/// The tiles of a line, told from its first cell.
pub proof fn lemma_tiles_front(line: Seq<int>)
    requires
        line.len() > 0,
    ensures
        tiles(line) == if line[0] == 0 {
            tiles(line.skip(1))
        } else {
            seq![line[0]] + tiles(line.skip(1))
        },
{
    let head = seq![line[0]];
    assert(line =~= head + line.skip(1));
    lemma_tiles_concat(head, line.skip(1));
    assert(tiles(head) == if line[0] == 0 { Seq::<int>::empty() } else { head }) by {
        reveal_with_fuel(tiles, 2);
    }
}

/// No tile is an empty cell, and a line has no more tiles than cells.
pub proof fn lemma_tiles_nonzero(line: Seq<int>)
    ensures
        tiles(line).len() <= line.len(),
        forall|k: int| 0 <= k < tiles(line).len() ==> tiles(line)[k] != 0,
        (forall|j: int| 0 <= j < line.len() ==> line[j] >= 0) ==> (forall|k: int|
            0 <= k < tiles(line).len() ==> tiles(line)[k] > 0),
    decreases line.len(),
{
    if line.len() > 0 {
        lemma_tiles_nonzero(line.drop_last());
    }
}

/// A line of empty cells has no tiles.
pub proof fn lemma_tiles_of_zeros(line: Seq<int>)
    requires
        forall|j: int| 0 <= j < line.len() ==> line[j] == 0,
    ensures
        tiles(line) == Seq::<int>::empty(),
    decreases line.len(),
{
    if line.len() > 0 {
        lemma_tiles_of_zeros(line.drop_last());
    }
}

/// A line without empty cells is its own sequence of tiles.
pub proof fn lemma_tiles_of_tiles(t: Seq<int>)
    requires
        forall|k: int| 0 <= k < t.len() ==> t[k] != 0,
    ensures
        tiles(t) == t,
    decreases t.len(),
{
    if t.len() > 0 {
        lemma_tiles_of_tiles(t.drop_last());
    }
}

/// A line with as many tiles as cells has no empty cell.
pub proof fn lemma_tiles_full(line: Seq<int>)
    requires
        tiles(line).len() == line.len(),
    ensures
        tiles(line) == line,
    decreases line.len(),
{
    if line.len() > 0 {
        lemma_tiles_nonzero(line.drop_last());
        lemma_tiles_full(line.drop_last());
    }
}

/// Packing tiles into a line keeps them.
pub proof fn lemma_tiles_packed(t: Seq<int>, n: nat)
    requires
        t.len() <= n,
        forall|k: int| 0 <= k < t.len() ==> t[k] != 0,
    ensures
        tiles(packed(t, n)) == t,
{
    let zeros = Seq::new((n - t.len()) as nat, |j: int| 0int);
    lemma_tiles_concat(zeros, t);
    lemma_tiles_of_zeros(zeros);
    lemma_tiles_of_tiles(t);
}

/// Merging never makes more tiles. Where it makes no fewer, it merged
/// nothing: the tiles are unchanged and nothing was earned.
pub proof fn lemma_merged_len(t: Seq<int>)
    ensures
        merged(t).len() <= t.len(),
        merged(t).len() == t.len() ==> merged(t) == t && gain(t) == 0,
    decreases t.len(),
{
    if t.len() == 0 {
    } else if t.len() >= 2 && t[t.len() - 2] == t[t.len() - 1] {
        lemma_merged_len(t.take(t.len() - 2));
    } else {
        lemma_merged_len(t.drop_last());
    }
}

/// Merging tiles gives tiles: no merged value is zero.
pub proof fn lemma_merged_positive(t: Seq<int>)
    requires
        forall|k: int| 0 <= k < t.len() ==> t[k] > 0,
    ensures
        forall|k: int| 0 <= k < merged(t).len() ==> merged(t)[k] > 0,
    decreases t.len(),
{
    if t.len() == 0 {
    } else if t.len() >= 2 && t[t.len() - 2] == t[t.len() - 1] {
        let rest = t.take(t.len() - 2);
        assert forall|k: int| 0 <= k < rest.len() implies rest[k] > 0 by {}
        lemma_merged_positive(rest);
        assert forall|k: int| 0 <= k < merged(t).len() implies merged(t)[k] > 0 by {
            if k < merged(rest).len() {
                assert(merged(t)[k] == merged(rest)[k]);
            }
        }
    } else {
        let rest = t.drop_last();
        assert forall|k: int| 0 <= k < rest.len() implies rest[k] > 0 by {}
        lemma_merged_positive(rest);
        assert forall|k: int| 0 <= k < merged(t).len() implies merged(t)[k] > 0 by {
            if k < merged(rest).len() {
                assert(merged(t)[k] == merged(rest)[k]);
            }
        }
    }
}

/// Merging earns nothing negative, and no more than the tiles add up to.
pub proof fn lemma_gain_bounds(t: Seq<int>)
    requires
        forall|k: int| 0 <= k < t.len() ==> t[k] >= 0,
    ensures
        0 <= gain(t) <= sum(t),
    decreases t.len(),
{
    if t.len() == 0 {
    } else if t.len() == 1 {
        lemma_gain_bounds(t.drop_last());
    } else if t[t.len() - 2] == t[t.len() - 1] {
        let rest = t.take(t.len() - 2);
        lemma_gain_bounds(rest);
        assert(t.drop_last().drop_last() =~= rest);
        assert(sum(t) == sum(rest) + t[t.len() - 2] + t[t.len() - 1]) by {
            reveal_with_fuel(sum, 2);
        }
    } else {
        lemma_gain_bounds(t.drop_last());
    }
}

/// A line keeps its length when its tiles are pushed.
pub proof fn lemma_slid_line_len(line: Seq<int>)
    ensures
        slid_line(line).len() == line.len(),
{
    lemma_tiles_nonzero(line);
    lemma_merged_len(tiles(line));
}

/// The tiles of a pushed line are the merged tiles of the line.
pub proof fn lemma_tiles_slid_line(line: Seq<int>)
    requires
        forall|j: int| 0 <= j < line.len() ==> line[j] >= 0,
    ensures
        tiles(slid_line(line)) == merged(tiles(line)),
{
    lemma_tiles_nonzero(line);
    lemma_merged_len(tiles(line));
    lemma_merged_positive(tiles(line));
    lemma_tiles_packed(merged(tiles(line)), line.len());
}

/// Pushing the tiles of a line earns nothing negative and no more than the
/// line adds up to.
pub proof fn lemma_line_gain_bounds(line: Seq<int>)
    requires
        forall|j: int| 0 <= j < line.len() ==> line[j] >= 0,
    ensures
        0 <= line_gain(line) <= sum(line),
{
    lemma_tiles_nonzero(line);
    lemma_gain_bounds(tiles(line));
    lemma_sum_tiles(line);
}

/// A push that leaves a line as it was has merged nothing in it.
pub proof fn lemma_line_unchanged(line: Seq<int>)
    requires
        forall|j: int| 0 <= j < line.len() ==> line[j] >= 0,
        slid_line(line) == line,
    ensures
        line_gain(line) == 0,
{
    lemma_tiles_slid_line(line);
    lemma_merged_len(tiles(line));
}

/// A pushed line without an empty cell is the line as it was: a push that
/// changes a line leaves an empty cell in it.
pub proof fn lemma_line_room(line: Seq<int>)
    requires
        forall|j: int| 0 <= j < line.len() ==> line[j] >= 0,
        forall|j: int| 0 <= j < line.len() ==> slid_line(line)[j] != 0,
    ensures
        slid_line(line) == line,
{
    let t = tiles(line);
    let m = merged(t);
    lemma_tiles_nonzero(line);
    lemma_merged_len(t);
    if m.len() < line.len() {
        assert(slid_line(line)[0] == 0);
    }
    lemma_tiles_full(line);
}

/// The sum of a line made of two parts is the sum of the parts' sums.
pub proof fn lemma_sum_concat(a: Seq<int>, b: Seq<int>)
    ensures
        sum(a + b) == sum(a) + sum(b),
    decreases b.len(),
{
    if b.len() == 0 {
    } else {
        lemma_sum_concat(a, b.drop_last());
        assert((a + b).drop_last() =~= a + b.drop_last());
    }
}

/// The sum of a line of four is the sum of its four cells.
pub proof fn lemma_sum_four(s: Seq<int>)
    requires
        s.len() == 4,
    ensures
        sum(s) == line_total(s),
{
    reveal_with_fuel(sum, 5);
}

/// Empty cells add nothing: the tiles of a line add up to what the line adds up to.
pub proof fn lemma_sum_tiles(line: Seq<int>)
    ensures
        sum(tiles(line)) == sum(line),
    decreases line.len(),
{
    if line.len() > 0 {
        lemma_sum_tiles(line.drop_last());
        if line.last() != 0 {
            assert(tiles(line).drop_last() =~= tiles(line.drop_last()));
        }
    }
}

/// Merging keeps the sum of the tiles.
pub proof fn lemma_sum_merged(t: Seq<int>)
    ensures
        sum(merged(t)) == sum(t),
    decreases t.len(),
{
    if t.len() == 0 {
    } else if t.len() >= 2 && t[t.len() - 2] == t[t.len() - 1] {
        let rest = t.take(t.len() - 2);
        lemma_sum_merged(rest);
        assert(merged(t).drop_last() =~= merged(rest));
        assert(t.drop_last().drop_last() =~= rest);
        assert(sum(t) == sum(rest) + t[t.len() - 2] + t[t.len() - 1]) by {
            reveal_with_fuel(sum, 2);
        }
    } else {
        lemma_sum_merged(t.drop_last());
        assert(merged(t).drop_last() =~= merged(t.drop_last()));
    }
}

/// Packing tiles into a line keeps their sum.
pub proof fn lemma_sum_packed(t: Seq<int>, n: nat)
    requires
        t.len() <= n,
    ensures
        sum(packed(t, n)) == sum(t),
{
    let zeros = Seq::new((n - t.len()) as nat, |j: int| 0int);
    lemma_sum_concat(zeros, t);
    lemma_tiles_of_zeros(zeros);
    lemma_sum_tiles(zeros);
}

/// Pushing the tiles of a line keeps the sum of the line.
pub proof fn lemma_sum_slid_line(line: Seq<int>)
    ensures
        sum(slid_line(line)) == sum(line),
{
    lemma_tiles_nonzero(line);
    lemma_merged_len(tiles(line));
    lemma_sum_packed(merged(tiles(line)), line.len());
    lemma_sum_merged(tiles(line));
    lemma_sum_tiles(line);
}

/// What a sequence of two parts holds is what its parts hold.
pub proof fn lemma_bag_concat(a: Seq<int>, b: Seq<int>)
    ensures
        bag(a + b) == bag(a).add(bag(b)),
    decreases b.len(),
{
    if b.len() == 0 {
    } else {
        lemma_bag_concat(a, b.drop_last());
        assert((a + b).drop_last() =~= a + b.drop_last());
    }
}

/// Doubling goes through a sequence part by part.
pub proof fn lemma_doubled_concat(a: Seq<int>, b: Seq<int>)
    ensures
        doubled(a + b) == doubled(a) + doubled(b),
{
}

/// Merging fabricates no value: the tiles after it are the tiles before it
/// but for the pairs that merged, each replaced by one tile of twice the
/// value. And what the merges earn is the sum of these new tiles.
pub proof fn lemma_merge_keeps_tiles(t: Seq<int>)
    ensures
        bag(merged(t)).add(bag(pairs(t))).add(bag(pairs(t))) == bag(t).add(bag(doubled(pairs(t)))),
        gain(t) == sum(doubled(pairs(t))),
    decreases t.len(),
{
    let after = bag(merged(t)).add(bag(pairs(t))).add(bag(pairs(t)));
    let before = bag(t).add(bag(doubled(pairs(t))));
    if t.len() == 0 {
    } else if t.len() >= 2 && t[t.len() - 2] == t[t.len() - 1] {
        let rest = t.take(t.len() - 2);
        let x = t[t.len() - 1];
        lemma_merge_keeps_tiles(rest);
        assert(t.drop_last().drop_last() =~= rest);
        assert(bag(t) == bag(rest).insert(x).insert(x)) by {
            reveal_with_fuel(bag, 2);
        }
        assert(merged(t).drop_last() =~= merged(rest));
        assert(pairs(t).drop_last() =~= pairs(rest));
        assert(doubled(pairs(t)).drop_last() =~= doubled(pairs(rest)));
        let after_rest = bag(merged(rest)).add(bag(pairs(rest))).add(bag(pairs(rest)));
        let before_rest = bag(rest).add(bag(doubled(pairs(rest))));
        assert forall|v: int| after.count(v) == before.count(v) by {
            assert(after_rest.count(v) == before_rest.count(v));
        }
    } else {
        let rest = t.drop_last();
        lemma_merge_keeps_tiles(rest);
        assert(merged(t).drop_last() =~= merged(rest));
        let after_rest = bag(merged(rest)).add(bag(pairs(rest))).add(bag(pairs(rest)));
        let before_rest = bag(rest).add(bag(doubled(pairs(rest))));
        assert forall|v: int| after.count(v) == before.count(v) by {
            assert(after_rest.count(v) == before_rest.count(v));
        }
    }
}

/// What one cell adds to the tiles of its line: its tile, if it holds one.
pub open spec fn cell_bag(v: int) -> Multiset<int> {
    if v == 0 {
        Multiset::empty()
    } else {
        Multiset::singleton(v)
    }
}

/// The tiles of a line of four are the tiles of its four cells.
pub proof fn lemma_bag_tiles_four(line: Seq<int>)
    requires
        line.len() == 4,
    ensures
        bag(tiles(line)) == cell_bag(line[0]).add(cell_bag(line[1])).add(cell_bag(line[2])).add(
            cell_bag(line[3]),
        ),
{
    let a = tiles(seq![line[0]]);
    let b = tiles(seq![line[1]]);
    let c = tiles(seq![line[2]]);
    let d = tiles(seq![line[3]]);
    lemma_tiles_four(line);
    lemma_bag_concat(a + b + c, d);
    lemma_bag_concat(a + b, c);
    lemma_bag_concat(a, b);
    assert forall|v: int| bag(#[trigger] tiles(seq![v])) == cell_bag(v) by {
        reveal_with_fuel(bag, 2);
    }
}

/// How often one cell adds the value `v` to the tiles of its line.
#[verifier::opaque]
pub open spec fn cell_count(cell: int, v: int) -> int {
    if cell != 0 && cell == v {
        1
    } else {
        0
    }
}

/// How often a line of four holds the tile `v`.
pub proof fn lemma_line_count(line: Seq<int>, v: int)
    requires
        line.len() == 4,
    ensures
        bag(tiles(line)).count(v) == cell_count(line[0], v) + cell_count(line[1], v) + cell_count(
            line[2],
            v,
        ) + cell_count(line[3], v),
{
    reveal(cell_count);
    lemma_bag_tiles_four(line);
}

/// Twice a tile is a tile.
pub proof fn lemma_tile_doubles(v: int)
    requires
        is_tile(v),
    ensures
        is_tile(2 * v),
{
    let k = choose|k: nat| k >= 1 && v == #[trigger] pow2(k);
    lemma_pow2_unfold(k + 1);
}

/// The tiles of a line of cells are tiles.
pub proof fn lemma_tiles_are_tiles(line: Seq<int>)
    requires
        forall|j: int| 0 <= j < line.len() ==> is_cell(#[trigger] line[j]),
    ensures
        forall|k: int| 0 <= k < tiles(line).len() ==> is_tile(#[trigger] tiles(line)[k]),
    decreases line.len(),
{
    if line.len() > 0 {
        let rest = line.drop_last();
        assert forall|j: int| 0 <= j < rest.len() implies is_cell(#[trigger] rest[j]) by {}
        lemma_tiles_are_tiles(rest);
        assert forall|k: int| 0 <= k < tiles(line).len() implies is_tile(
            #[trigger] tiles(line)[k],
        ) by {
            if k < tiles(rest).len() {
                assert(tiles(line)[k] == tiles(rest)[k]);
            }
        }
    }
}

/// Merging tiles makes tiles.
pub proof fn lemma_merged_are_tiles(t: Seq<int>)
    requires
        forall|k: int| 0 <= k < t.len() ==> is_tile(#[trigger] t[k]),
    ensures
        forall|k: int| 0 <= k < merged(t).len() ==> is_tile(#[trigger] merged(t)[k]),
    decreases t.len(),
{
    if t.len() > 0 {
        let pair = t.len() >= 2 && t[t.len() - 2] == t[t.len() - 1];
        let rest = if pair {
            t.take(t.len() - 2)
        } else {
            t.drop_last()
        };
        assert forall|k: int| 0 <= k < rest.len() implies is_tile(#[trigger] rest[k]) by {}
        lemma_merged_are_tiles(rest);
        lemma_tile_doubles(t[t.len() - 1]);
        assert forall|k: int| 0 <= k < merged(t).len() implies is_tile(
            #[trigger] merged(t)[k],
        ) by {
            if k < merged(rest).len() {
                assert(merged(t)[k] == merged(rest)[k]);
            }
        }
    }
}

/// Pushing the tiles of a line of cells leaves a line of cells.
pub proof fn lemma_slid_line_cells(line: Seq<int>)
    requires
        forall|j: int| 0 <= j < line.len() ==> is_cell(#[trigger] line[j]),
    ensures
        slid_line(line).len() == line.len(),
        forall|j: int| 0 <= j < line.len() ==> is_cell(#[trigger] slid_line(line)[j]),
{
    let t = tiles(line);
    let m = merged(t);
    lemma_tiles_nonzero(line);
    lemma_merged_len(t);
    lemma_tiles_are_tiles(line);
    lemma_merged_are_tiles(t);
    assert forall|j: int| 0 <= j < line.len() implies is_cell(#[trigger] slid_line(line)[j]) by {
        let z = line.len() - m.len();
        if j >= z {
            assert(slid_line(line)[j] == m[j - z]);
            assert(is_tile(m[j - z]));
        }
    }
}

/// The tiles of a line of four, cell by cell.
pub proof fn lemma_tiles_four(line: Seq<int>)
    requires
        line.len() == 4,
    ensures
        tiles(line) == tiles(seq![line[0]]) + tiles(seq![line[1]]) + tiles(seq![line[2]]) + tiles(
            seq![line[3]],
        ),
        forall|v: int| #[trigger]
            tiles(seq![v]) == if v == 0 {
                Seq::<int>::empty()
            } else {
                seq![v]
            },
{
    let a = seq![line[0]];
    let b = seq![line[1]];
    let c = seq![line[2]];
    let d = seq![line[3]];
    assert(line =~= a + b + c + d);
    lemma_tiles_concat(a + b + c, d);
    lemma_tiles_concat(a + b, c);
    lemma_tiles_concat(a, b);
    assert forall|v: int| #[trigger]
        tiles(seq![v]) == if v == 0 {
            Seq::<int>::empty()
        } else {
            seq![v]
        } by {
        reveal_with_fuel(tiles, 2);
    }
}

/// Merging up to four tiles, written out.
pub proof fn lemma_merged_small(t: Seq<int>)
    requires
        t.len() <= 4,
    ensures
        t.len() == 0 ==> merged(t) == t && gain(t) == 0,
        t.len() == 1 ==> merged(t) == t && gain(t) == 0,
        t.len() == 2 ==> (merged(t), gain(t)) == if t[0] == t[1] {
            (seq![2 * t[1]], 2 * t[1])
        } else {
            (t, 0int)
        },
        t.len() == 3 ==> (merged(t), gain(t)) == if t[1] == t[2] {
            (seq![t[0], 2 * t[2]], 2 * t[2])
        } else if t[0] == t[1] {
            (seq![2 * t[1], t[2]], 2 * t[1])
        } else {
            (t, 0int)
        },
        t.len() == 4 ==> (merged(t), gain(t)) == if t[2] == t[3] {
            if t[0] == t[1] {
                (seq![2 * t[1], 2 * t[3]], 2 * t[1] + 2 * t[3])
            } else {
                (seq![t[0], t[1], 2 * t[3]], 2 * t[3])
            }
        } else if t[1] == t[2] {
            (seq![t[0], 2 * t[2], t[3]], 2 * t[2])
        } else if t[0] == t[1] {
            (seq![2 * t[1], t[2], t[3]], 2 * t[1])
        } else {
            (t, 0int)
        },
    decreases t.len(),
{
    if t.len() == 0 {
    } else if t.len() >= 2 && t[t.len() - 2] == t[t.len() - 1] {
        let rest = t.take(t.len() - 2);
        lemma_merged_small(rest);
    } else {
        let rest = t.drop_last();
        lemma_merged_small(rest);
    }
}

/// Pushing the tiles of a line of four, written out without recursion.
pub proof fn lemma_slid_line_four(line: Seq<int>)
    requires
        line.len() == 4,
    ensures
        ({
            let (r, g) = slid_four(line[0], line[1], line[2], line[3]);
            slid_line(line) == seq![r.0, r.1, r.2, r.3] && line_gain(line) == g
        }),
{
    lemma_tiles_four(line);
    lemma_merged_small(tiles(line));
}

} // verus!
