//! What the loops of `Grid::mov` and `Grid::within_limits` keep: the merge
//! pass over a packed line, step by step, and the sums row by row.

use vstd::prelude::*;
use crate::board::{gain, line_gain, line_total, merged, packed, slid_gain, sum, tiles};
use crate::lines::{lemma_gain_bounds, lemma_tiles_front, lemma_tiles_nonzero};

verus! {

/// Where the merge pass over a packed line stands before it looks at cell
/// `j - 1`. `line` is the line before the pass, with its tiles in the cells
/// from `z` on; `now` is the line as the pass has changed it; the tiles that
/// the pass has not settled yet are `line[z..q]`; `earned` is what the merges
/// made so far have earned.
pub open spec fn merge_state(
    line: Seq<int>,
    z: int,
    q: int,
    now: Seq<int>,
    j: int,
    earned: int,
) -> bool {
    &&& line.len() == 4
    &&& now.len() == 4
    &&& 0 <= z <= q <= 4
    &&& 1 <= j <= 4
    &&& forall|p: int| 0 <= p < z ==> line[p] == 0
    &&& forall|p: int| z <= p < 4 ==> line[p] > 0
    &&& forall|p: int| 0 <= p < j - 1 ==> now[p] == line[p]
    &&& {
        ||| now[j - 1] == line[j - 1] && q == (if z > j { z } else { j })
        ||| now[j - 1] == 0 && line[j - 1] != 0 && q == j - 1
    }
    &&& merged(line.subrange(z, 4)) == merged(line.subrange(z, q)) + tiles(now.skip(j))
    &&& earned + gain(line.subrange(z, q)) == gain(line.subrange(z, 4))
    &&& earned >= 0
}

/// One step of the merge pass: cell `j - 1` takes up its left neighbour if
/// the two hold the same value, and the pass moves on to that neighbour.
/// Returns where the unsettled tiles end after the step.
pub proof fn lemma_merge_step(
    line: Seq<int>,
    z: int,
    q: int,
    now: Seq<int>,
    j: int,
    earned: int,
) -> (q2: int)
    requires
        merge_state(line, z, q, now, j, earned),
        j >= 2,
    ensures
        now[j - 1] == line[j - 2] ==> earned + 2 * now[j - 1] <= gain(line.subrange(z, 4))
            && merge_state(
            line,
            z,
            q2,
            now.update(j - 1, 2 * now[j - 1]).update(j - 2, 0),
            j - 1,
            earned + 2 * now[j - 1],
        ),
        now[j - 1] != line[j - 2] ==> merge_state(line, z, q2, now, j - 1, earned),
{
    let c = j - 1;
    let rest = line.subrange(z, q);
    let settled = tiles(now.skip(j));
    if now[c] == line[c - 1] {
        let next = now.update(c, 2 * now[c]).update(c - 1, 0);
        lemma_tiles_front(next.skip(c));
        assert(next.skip(c).skip(1) =~= now.skip(j));
        if now[c] == 0 {
            q
        } else {
            let shorter = line.subrange(z, c - 1);
            assert(rest.take(rest.len() - 2) =~= shorter);
            lemma_gain_bounds(shorter);
            assert(merged(shorter).push(2 * line[c]) + settled =~= merged(shorter) + (seq![
                2 * line[c],
            ] + settled));
            c - 1
        }
    } else {
        lemma_tiles_front(now.skip(c));
        assert(now.skip(c).skip(1) =~= now.skip(j));
        if now[c] == 0 {
            q
        } else {
            let shorter = line.subrange(z, c);
            assert(rest.drop_last() =~= shorter);
            assert(merged(shorter).push(line[c]) + settled =~= merged(shorter) + (seq![line[c]]
                + settled));
            c
        }
    }
}

/// When the merge pass has looked at every cell, the line holds the merged
/// tiles, and what it earned is what merging earns.
pub proof fn lemma_merge_done(line: Seq<int>, z: int, q: int, now: Seq<int>, earned: int)
    requires
        merge_state(line, z, q, now, 1, earned),
    ensures
        tiles(now) == merged(line.subrange(z, 4)),
        earned == gain(line.subrange(z, 4)),
{
    let rest = line.subrange(z, q);
    lemma_tiles_front(now);
    if rest.len() == 1 {
        assert(merged(rest) =~= seq![line[0]]) by {
            reveal_with_fuel(merged, 2);
        }
    }
}

/// The points earned in the first `n` rows by a push to the right.
pub open spec fn rows_gain(b: Seq<Seq<int>>, n: nat) -> int
    decreases n,
{
    if n == 0 {
        0
    } else {
        rows_gain(b, (n - 1) as nat) + line_gain(b[n - 1])
    }
}

/// The points of the rows add up to the points of the push, and grow row by row.
pub proof fn lemma_rows_gain(b: Seq<Seq<int>>, n: nat)
    requires
        n <= 4,
        forall|i: int, j: int| 0 <= i < 4 && 0 <= j < b[i].len() ==> b[i][j] >= 0,
    ensures
        0 <= rows_gain(b, n) <= rows_gain(b, 4),
        rows_gain(b, 4) == slid_gain(b),
{
    reveal_with_fuel(rows_gain, 5);
    assert forall|i: int| 0 <= i < 4 implies 0 <= #[trigger] line_gain(b[i]) by {
        lemma_tiles_nonzero(b[i]);
        lemma_gain_bounds(tiles(b[i]));
    }
}

/// The sum of the cells of the first `n` rows.
pub open spec fn rows_total(b: Seq<Seq<int>>, n: nat) -> int
    decreases n,
{
    if n == 0 {
        0
    } else {
        rows_total(b, (n - 1) as nat) + line_total(b[n - 1])
    }
}

} // verus!
