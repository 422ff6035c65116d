//! Laws relating the engine's operations: a reveal's result depends only on
//! the board and bomb layout, never on traversal order, and revealing the
//! same cell twice changes nothing further.

use vstd::prelude::*;

use crate::grid::Cell;
use crate::state::GameState;
use crate::state::Outcome;
use crate::state::fill_reach;
use crate::state::is_fill_path;
use crate::state::lemma_fill_reach_self;
use crate::state::lemma_same_board;
use crate::state::reveal_effect;

verus! {

/// Flood-fill reachability depends only on the dimensions and the bomb
/// layout, not on the player's progress.
pub proof fn lemma_fill_reach_same_board(a: GameState, b: GameState, start: Cell, c: Cell)
    requires
        a.width == b.width,
        a.height == b.height,
        a.bombs@ == b.bombs@,
        fill_reach(a, start, c),
    ensures
        fill_reach(b, start, c),
{
    let p = choose|p: Seq<Cell>| #[trigger] is_fill_path(a, p) && p[0] == start && p[p.len() - 1]
        == c;
    assert(is_fill_path(b, p)) by {
        assert forall|i: int| 0 <= i < p.len() implies b.in_bounds(#[trigger] p[i])
            && !b.is_bomb_cell(p[i]) by {
            lemma_same_board(a, b, p[i]);
        }
        assert forall|i: int| 0 <= i < p.len() - 1 implies b.adj_bombs(#[trigger] p[i]) == 0
            && crate::grid::adjacent(p[i + 1], p[i]) by {
            lemma_same_board(a, b, p[i]);
        }
    }
    assert(p[0] == start && p[p.len() - 1] == c);
}

/// For a fixed board and bomb layout, revealing a cell always produces the
/// same revealed set, the same recorded counts, and the same outcome, no
/// matter in which order the flood fill walks its frontier.
pub proof fn lemma_reveal_deterministic(pre: GameState, a: GameState, b: GameState, cell: Cell)
    requires
        pre.wf(),
        pre.in_bounds(cell),
        !pre.is_bomb_cell(cell),
        reveal_effect(pre, a, cell),
        reveal_effect(pre, b, cell),
    ensures
        a.revealed_set() == b.revealed_set(),
        forall|c: Cell| pre.in_bounds(c) ==> #[trigger] a.count_of(c) == b.count_of(c),
        a.outcome == b.outcome,
{
    assert(a.revealed_set() =~= b.revealed_set());
    assert forall|c: Cell| pre.in_bounds(c) implies #[trigger] a.count_of(c) == b.count_of(c) by {
        if fill_reach(pre, cell, c) {
            assert(a.count_of(c) == pre.adj_bombs(c));
        }
    }
}

/// Revealing the same non-bomb cell a second time is a no-op: the revealed
/// set, the recorded counts, and the outcome match those after the first
/// reveal.
pub proof fn lemma_reveal_idempotent(pre: GameState, mid: GameState, post: GameState, cell: Cell)
    requires
        pre.wf(),
        pre.in_bounds(cell),
        !pre.is_bomb_cell(cell),
        reveal_effect(pre, mid, cell),
        reveal_effect(mid, post, cell),
    ensures
        post.revealed_set() == mid.revealed_set(),
        forall|c: Cell| pre.in_bounds(c) ==> #[trigger] post.count_of(c) == mid.count_of(c),
        post.outcome == mid.outcome,
{
    assert forall|c: Cell| #[trigger]
        post.revealed_set().contains(c) == mid.revealed_set().contains(c) by {
        if fill_reach(mid, cell, c) {
            lemma_fill_reach_same_board(mid, pre, cell, c);
        }
        if fill_reach(pre, cell, c) {
            lemma_fill_reach_same_board(pre, mid, cell, c);
        }
    }
    assert(post.revealed_set() =~= mid.revealed_set());
    assert forall|c: Cell| pre.in_bounds(c) implies #[trigger] post.count_of(c) == mid.count_of(
        c,
    ) by {
        if fill_reach(mid, cell, c) {
            lemma_fill_reach_same_board(mid, pre, cell, c);
            lemma_same_board(pre, mid, c);
            assert(post.count_of(c) == mid.adj_bombs(c));
            assert(mid.count_of(c) == pre.adj_bombs(c));
        } else {
            if fill_reach(pre, cell, c) {
                lemma_fill_reach_same_board(pre, mid, cell, c);
            }
            assert(post.count_of(c) == mid.count_of(c));
        }
    }
    assert(post.outcome == mid.outcome);
}

/// The clicked cell itself is always uncovered by a non-bomb reveal.
pub proof fn lemma_clicked_cell_revealed(pre: GameState, post: GameState, cell: Cell)
    requires
        pre.wf(),
        pre.in_bounds(cell),
        !pre.is_bomb_cell(cell),
        reveal_effect(pre, post, cell),
    ensures
        post.revealed_set().contains(cell),
{
    lemma_fill_reach_self(pre, cell);
}

/// Win detection: once a non-losing reveal leaves exactly the non-bomb cells
/// revealed, the outcome is `Win`.
pub proof fn lemma_win_detection(pre: GameState, post: GameState, cell: Cell)
    requires
        pre.wf(),
        reveal_effect(pre, post, cell),
        post.revealed_set().len() == pre.width * pre.height - pre.bombs@.len(),
    ensures
        post.outcome == Outcome::Win,
{
}

/// Every revealed cell's recorded count equals its exact number of adjacent
/// bombs on a well-formed board.
pub proof fn lemma_neighbor_count_correct(s: GameState, c: Cell)
    requires
        s.wf(),
        s.revealed_set().contains(c),
    ensures
        s.count_of(c) as int == s.adj_bombs(c),
{
}

} // verus!
