//! The board state engine: bomb placement, neighbor counts, flood-fill
//! reveal, and the win/lose state machine.

use vstd::prelude::*;

use rand::seq::SliceRandom;

use crate::grid::Cell;
use crate::grid::adjacent;
use crate::grid::cell_in_bounds;
use crate::grid::cell_index;
use crate::grid::count_false;
use crate::grid::grid_set;
use crate::grid::marked_set;
use crate::grid::lemma_cell_index_bounds;
use crate::grid::lemma_cell_index_injective;
use crate::grid::lemma_count_false_update;
use crate::grid::lemma_grid_set_len;
use crate::grid::lemma_marked_set_bound;
use crate::grid::lemma_marked_set_empty;
use crate::grid::lemma_marked_set_update;

verus! {

broadcast use
    vstd::set::group_set_axioms,
    vstd::seq_lib::group_to_multiset_ensures,
    vstd::seq_lib::lemma_seq_contains_after_push,
    vstd::seq_lib::lemma_seq_empty_contains_nothing;

/// How many bombs a fresh board receives (capped by the cell count on small
/// boards).
pub const NUMBER_BOMBS: usize = 50;

/// The number of bombs actually placed on a `width` x `height` board.
pub open spec fn bomb_quota(width: int, height: int) -> int {
    if NUMBER_BOMBS <= width * height {
        NUMBER_BOMBS as int
    } else {
        width * height
    }
}

/// The status of one game session. `Win` and `Lose` are terminal until the
/// next reset.
#[derive(Debug, Clone, Copy, PartialEq, Eq, Structural)]
pub enum Outcome {
    InProgress,
    Win,
    Lose,
}

/// The sole stateful entity: grid dimensions, bomb layout, and the player's
/// progress. Mutated only through `click`, `mark`, and `reset`.
#[derive(Debug)]
pub struct GameState {
    pub outcome: Outcome,
    pub height: usize,
    pub width: usize,
    pub bombs: Vec<Cell>,
    /// When the player clicks a bomb it is recorded here, for display.
    pub visible_bomb: Option<Cell>,
    pub revealed_squares: Vec<bool>,
    pub neighboring_bombs: Vec<u32>,
    pub n_revealed: usize,
}

impl GameState {
    /// The cell lies on this board.
    pub open spec fn in_bounds(self, c: Cell) -> bool {
        cell_in_bounds(self.width as int, self.height as int, c)
    }

    /// The bomb layout, in placement order.
    pub open spec fn bombs_seq(self) -> Seq<Cell> {
        self.bombs@
    }

    /// The set of bomb cells.
    pub open spec fn bombs_set(self) -> Set<Cell> {
        self.bombs_seq().to_set()
    }

    /// The cell holds a bomb.
    pub open spec fn is_bomb_cell(self, c: Cell) -> bool {
        self.bombs_set().contains(c)
    }

    /// There is a bomb at mathematical coordinates (x, y); false off-board.
    pub open spec fn bomb_at(self, x: int, y: int) -> bool {
        &&& 0 <= x < self.width
        &&& 0 <= y < self.height
        &&& self.bombs_set().contains((x as usize, y as usize))
    }

    /// One where there is a bomb at (x, y), zero elsewhere.
    pub open spec fn bomb_ind(self, x: int, y: int) -> int {
        if self.bomb_at(x, y) {
            1
        } else {
            0
        }
    }

    /// The number of bombs among the up-to-8 in-bounds neighbors of `c`.
    pub open spec fn adj_bombs(self, c: Cell) -> int {
        let x = c.0 as int;
        let y = c.1 as int;
        self.bomb_ind(x - 1, y - 1) + self.bomb_ind(x - 1, y) + self.bomb_ind(x - 1, y + 1)
            + self.bomb_ind(x, y - 1) + self.bomb_ind(x, y + 1) + self.bomb_ind(x + 1, y - 1)
            + self.bomb_ind(x + 1, y) + self.bomb_ind(x + 1, y + 1)
    }

    /// The set of cells the player has uncovered.
    pub open spec fn revealed_set(self) -> Set<Cell> {
        marked_set(self.width as int, self.height as int, self.revealed_squares@)
    }

    /// The recorded neighbor-bomb count of `c` (meaningful for revealed cells).
    pub open spec fn count_of(self, c: Cell) -> u32 {
        self.neighboring_bombs@[cell_index(self.height as int, c)]
    }

    /// The backing vectors cover the whole grid and the revealed counter is
    /// exact.
    pub open spec fn storage_ok(self) -> bool {
        &&& self.revealed_squares@.len() == self.width * self.height
        &&& self.neighboring_bombs@.len() == self.width * self.height
        &&& self.n_revealed == self.revealed_set().len()
    }

    /// Well-formedness: positive dimensions, a duplicate-free in-bounds bomb
    /// layout, no revealed bombs, and an exact neighbor-bomb count recorded
    /// for every revealed cell.
    pub open spec fn wf(self) -> bool {
        &&& 1 <= self.width
        &&& 1 <= self.height
        &&& self.width * self.height <= usize::MAX
        &&& self.storage_ok()
        &&& self.bombs_seq().no_duplicates()
        &&& forall|i: int|
            0 <= i < self.bombs_seq().len() ==> self.in_bounds(#[trigger] self.bombs_seq()[i])
        &&& self.bombs_seq().len() <= self.width * self.height
        &&& self.revealed_set().finite()
        &&& forall|c: Cell| #[trigger] self.revealed_set().contains(c) ==> !self.is_bomb_cell(c)
        &&& forall|c: Cell| #[trigger]
            self.revealed_set().contains(c) ==> self.count_of(c) == self.adj_bombs(c)
    }

    /// Position of `c` in the grid-indexed vectors.
    fn index_of(&self, c: Cell) -> (i: usize)
        requires
            c.0 < self.width,
            c.1 < self.height,
            self.width * self.height <= usize::MAX,
        ensures
            i as int == cell_index(self.height as int, c),
            i < self.width * self.height,
    {
        proof {
            lemma_cell_index_bounds(self.width as int, self.height as int, c);
        }
        c.0 * self.height + c.1
    }

    /// Whether the cell holds a bomb.
    pub fn is_bomb(&self, cell: Cell) -> (r: bool)
        ensures
            r == self.is_bomb_cell(cell),
    {
        let mut i: usize = 0;
        while i < self.bombs.len()
            invariant
                i <= self.bombs@.len(),
                forall|k: int| 0 <= k < i ==> #[trigger] self.bombs@[k] != cell,
            decreases self.bombs@.len() - i,
        {
            let b = self.bombs[i];
            if b.0 == cell.0 && b.1 == cell.1 {
                return true;
            }
            i += 1;
        }
        false
    }

    /// The exact number of bombs among the in-bounds neighbors of `cell`.
    fn adjacent_bomb_count(&self, cell: Cell) -> (count: u32)
        requires
            self.in_bounds(cell),
        ensures
            count as int == self.adj_bombs(cell),
            count <= 8,
    {
        let x = cell.0;
        let y = cell.1;
        let mut count: u32 = 0;
        if x > 0 && y > 0 && self.is_bomb((x - 1, y - 1)) {
            count += 1;
        }
        if x > 0 && self.is_bomb((x - 1, y)) {
            count += 1;
        }
        if x > 0 && y + 1 < self.height && self.is_bomb((x - 1, y + 1)) {
            count += 1;
        }
        if y > 0 && self.is_bomb((x, y - 1)) {
            count += 1;
        }
        if y + 1 < self.height && self.is_bomb((x, y + 1)) {
            count += 1;
        }
        if x + 1 < self.width && y > 0 && self.is_bomb((x + 1, y - 1)) {
            count += 1;
        }
        if x + 1 < self.width && self.is_bomb((x + 1, y)) {
            count += 1;
        }
        if x + 1 < self.width && y + 1 < self.height && self.is_bomb((x + 1, y + 1)) {
            count += 1;
        }
        count
    }

    /// How many cells the player has revealed.
    pub fn num_revealed(&self) -> (r: usize)
        requires
            self.wf(),
        ensures
            r == self.revealed_set().len(),
    {
        self.n_revealed
    }

    /// How many bombs the board holds.
    pub fn num_bombs(&self) -> (r: usize)
        ensures
            r == self.bombs_seq().len(),
    {
        self.bombs.len()
    }

    /// Whether the player has uncovered the cell.
    pub fn is_revealed(&self, cell: Cell) -> (r: bool)
        requires
            self.wf(),
            self.in_bounds(cell),
        ensures
            r == self.revealed_set().contains(cell),
    {
        let i = self.index_of(cell);
        self.revealed_squares[i]
    }

    /// The recorded neighbor-bomb count of a revealed cell.
    pub fn neighbor_count(&self, cell: Cell) -> (r: u32)
        requires
            self.wf(),
            self.in_bounds(cell),
        ensures
            r == self.count_of(cell),
            self.revealed_set().contains(cell) ==> r as int == self.adj_bombs(cell),
    {
        let i = self.index_of(cell);
        self.neighboring_bombs[i]
    }
}

/// The up-to-8 grid-adjacent coordinates of `cell` that lie on the board.
pub fn neighbors(game_state: &GameState, cell: Cell) -> (r: Vec<Cell>)
    requires
        game_state.in_bounds(cell),
    ensures
        r@.no_duplicates(),
        forall|c: Cell| #[trigger]
            r@.contains(c) <==> game_state.in_bounds(c) && adjacent(c, cell),
{
    let x = cell.0;
    let y = cell.1;
    let mut r: Vec<Cell> = Vec::new();
    if x > 0 && y > 0 {
        r.push((x - 1, y - 1));
    }
    if x > 0 {
        r.push((x - 1, y));
    }
    if x > 0 && y + 1 < game_state.height {
        r.push((x - 1, y + 1));
    }
    if y > 0 {
        r.push((x, y - 1));
    }
    if y + 1 < game_state.height {
        r.push((x, y + 1));
    }
    if x + 1 < game_state.width && y > 0 {
        r.push((x + 1, y - 1));
    }
    if x + 1 < game_state.width {
        r.push((x + 1, y));
    }
    if x + 1 < game_state.width && y + 1 < game_state.height {
        r.push((x + 1, y + 1));
    }
    r
}

/// Relies on rand's `SliceRandom::shuffle` with `rand::thread_rng`: it
/// permutes the slice in place by element swaps, so the result holds exactly
/// the cells it was given, rearranged.
#[verifier::external_body]
fn shuffle_cells(v: &mut Vec<Cell>)
    ensures
        final(v)@.len() == old(v)@.len(),
        final(v)@.to_multiset() == old(v)@.to_multiset(),
{
    v.shuffle(&mut rand::thread_rng());
}

/// Sample `bomb_quota` distinct in-bounds cells, uniformly at random.
fn choose_bomb_locations(height: usize, width: usize) -> (bombs: Vec<Cell>)
    requires
        1 <= height,
        1 <= width,
        width * height <= usize::MAX,
    ensures
        bombs@.len() == bomb_quota(width as int, height as int),
        bombs@.no_duplicates(),
        forall|i: int|
            0 <= i < bombs@.len() ==> cell_in_bounds(
                width as int,
                height as int,
                #[trigger] bombs@[i],
            ),
{
    let mut all_locations: Vec<Cell> = Vec::new();
    let mut x: usize = 0;
    while x < width
        invariant
            x <= width,
            width * height <= usize::MAX,
            1 <= height,
            all_locations@.len() == x * height,
            forall|k: int|
                0 <= k < all_locations@.len() ==> {
                    let c = #[trigger] all_locations@[k];
                    &&& (c.0 as int) < width
                    &&& (c.1 as int) < height
                    &&& cell_index(height as int, c) == k
                },
        decreases width - x,
    {
        let mut y: usize = 0;
        proof {
            assert((x + 1) * height <= width * height) by (nonlinear_arith)
                requires
                    (x as int) < width,
                    0 <= height,
            ;
            assert(x * height + height == (x + 1) * height) by (nonlinear_arith);
        }
        while y < height
            invariant
                y <= height,
                (x as int) < width,
                x * height + height <= width * height,
                width * height <= usize::MAX,
                all_locations@.len() == x * height + y,
                forall|k: int|
                    0 <= k < all_locations@.len() ==> {
                        let c = #[trigger] all_locations@[k];
                        &&& (c.0 as int) < width
                        &&& (c.1 as int) < height
                        &&& cell_index(height as int, c) == k
                    },
            decreases height - y,
        {
            all_locations.push((x, y));
            y += 1;
        }
        x += 1;
    }
    assert(all_locations@.len() == width * height);
    let ghost enumerated = all_locations@;
    proof {
        assert forall|i: int, j: int|
            0 <= i < enumerated.len() && 0 <= j < enumerated.len() && i != j implies enumerated[i]
            != enumerated[j] by {
            if enumerated[i] == enumerated[j] {
                assert(cell_index(height as int, enumerated[i]) == i);
                assert(cell_index(height as int, enumerated[j]) == j);
            }
        }
        assert(enumerated.no_duplicates());
        enumerated.lemma_multiset_has_no_duplicates();
    }
    shuffle_cells(&mut all_locations);
    proof {
        let shuffled = all_locations@;
        assert forall|i: int| 0 <= i < shuffled.len() implies {
            &&& (#[trigger] shuffled[i].0 as int) < width
            &&& (shuffled[i].1 as int) < height
        } by {
            assert(shuffled.contains(shuffled[i]));
            assert(shuffled.to_multiset().count(shuffled[i]) > 0);
            assert(enumerated.contains(shuffled[i]));
            let k = choose|k: int| 0 <= k < enumerated.len() && enumerated[k] == shuffled[i];
            assert(enumerated[k] == shuffled[i]);
        }
        assert(forall|c: Cell| #[trigger]
            shuffled.to_multiset().contains(c) ==> shuffled.to_multiset().count(c) == 1);
        shuffled.lemma_multiset_has_no_duplicates_conv();
    }
    let quota = if NUMBER_BOMBS <= all_locations.len() {
        NUMBER_BOMBS
    } else {
        all_locations.len()
    };
    let ghost shuffled = all_locations@;
    all_locations.truncate(quota);
    proof {
        assert(all_locations@ == shuffled.subrange(0, quota as int));
        assert forall|i: int, j: int|
            0 <= i < all_locations@.len() && 0 <= j < all_locations@.len() && i != j implies
            all_locations@[i] != all_locations@[j] by {
            assert(shuffled[i] == all_locations@[i]);
            assert(shuffled[j] == all_locations@[j]);
        }
    }
    all_locations
}

impl GameState {
    /// Create a board with `bomb_quota` bombs sampled uniformly at random.
    pub fn new(height: usize, width: usize) -> (game: GameState)
        requires
            1 <= height,
            1 <= width,
            width * height <= usize::MAX,
        ensures
            game.wf(),
            game.height == height,
            game.width == width,
            game.outcome == Outcome::InProgress,
            game.visible_bomb is None,
            game.revealed_set() == Set::<Cell>::empty(),
            game.bombs_seq().len() == bomb_quota(width as int, height as int),
            game.bombs_set().len() == bomb_quota(width as int, height as int),
            forall|c: Cell| #[trigger] game.is_bomb_cell(c) ==> game.in_bounds(c),
    {
        let bombs = choose_bomb_locations(height, width);
        GameState::assemble(height, width, bombs)
    }

    /// Create a board with a caller-chosen bomb layout, so that hosts and
    /// tests can fix the otherwise-random placement.
    pub fn with_bombs(height: usize, width: usize, bombs: Vec<Cell>) -> (game: GameState)
        requires
            1 <= height,
            1 <= width,
            width * height <= usize::MAX,
            bombs@.no_duplicates(),
            forall|i: int|
                0 <= i < bombs@.len() ==> cell_in_bounds(
                    width as int,
                    height as int,
                    #[trigger] bombs@[i],
                ),
        ensures
            game.wf(),
            game.height == height,
            game.width == width,
            game.outcome == Outcome::InProgress,
            game.visible_bomb is None,
            game.revealed_set() == Set::<Cell>::empty(),
            game.bombs_seq() == bombs@,
    {
        GameState::assemble(height, width, bombs)
    }

    /// Shared construction: wire a bomb layout to an otherwise blank board.
    fn assemble(height: usize, width: usize, bombs: Vec<Cell>) -> (game: GameState)
        requires
            1 <= height,
            1 <= width,
            width * height <= usize::MAX,
            bombs@.no_duplicates(),
            forall|i: int|
                0 <= i < bombs@.len() ==> cell_in_bounds(
                    width as int,
                    height as int,
                    #[trigger] bombs@[i],
                ),
        ensures
            game.wf(),
            game.height == height,
            game.width == width,
            game.outcome == Outcome::InProgress,
            game.visible_bomb is None,
            game.revealed_set() == Set::<Cell>::empty(),
            game.bombs_seq() == bombs@,
            game.bombs_set().len() == bombs@.len(),
    {
        let total = width * height;
        let game = GameState {
            outcome: Outcome::InProgress,
            height,
            width,
            bombs,
            visible_bomb: None,
            revealed_squares: bool_grid(total),
            neighboring_bombs: count_grid(total),
            n_revealed: 0,
        };
        proof {
            lemma_marked_set_empty(width as int, height as int, game.revealed_squares@);
            assert(Set::<Cell>::empty().len() == 0);
            game.bombs_seq().unique_seq_to_set();
            lemma_grid_set_len(width, height);
            assert(game.bombs_set().subset_of(grid_set(width as int, height as int))) by {
                assert forall|c: Cell| game.bombs_set().contains(c) implies grid_set(
                    width as int,
                    height as int,
                ).contains(c) by {
                    let i = choose|i: int|
                        0 <= i < game.bombs_seq().len() && game.bombs_seq()[i] == c;
                    assert(game.bombs_seq()[i] == c);
                }
            }
            vstd::set_lib::lemma_len_subset(
                game.bombs_set(),
                grid_set(width as int, height as int),
            );
        }
        game
    }

    /// Re-sample the bombs and clear all progress, keeping the dimensions.
    pub fn reset(&mut self)
        requires
            old(self).wf(),
        ensures
            final(self).wf(),
            final(self).height == old(self).height,
            final(self).width == old(self).width,
            final(self).outcome == Outcome::InProgress,
            final(self).visible_bomb is None,
            final(self).revealed_set() == Set::<Cell>::empty(),
            final(self).bombs_seq().len() == bomb_quota(
                old(self).width as int,
                old(self).height as int,
            ),
            final(self).bombs_set().len() == bomb_quota(
                old(self).width as int,
                old(self).height as int,
            ),
            forall|c: Cell| #[trigger] final(self).is_bomb_cell(c) ==> final(self).in_bounds(c),
    {
        let bombs = choose_bomb_locations(self.height, self.width);
        let fresh = GameState::assemble(self.height, self.width, bombs);
        *self = fresh;
    }

    /// Secondary (right-click) action. The engine gives it no semantics, so
    /// it is a documented no-op that hosts can forward to safely.
    pub fn mark(&mut self, _cell: Cell)
        ensures
            *final(self) == *old(self),
    {
    }
}

/// A flood-fill path on board `s`: consecutive cells are adjacent, every
/// cell is an in-bounds non-bomb cell, and every cell except possibly the
/// last has no adjacent bombs, since the fill expands only past zero-count
/// cells.
pub open spec fn is_fill_path(s: GameState, p: Seq<Cell>) -> bool {
    &&& p.len() >= 1
    &&& forall|i: int| 0 <= i < p.len() ==> s.in_bounds(#[trigger] p[i]) && !s.is_bomb_cell(p[i])
    &&& forall|i: int|
        0 <= i < p.len() - 1 ==> s.adj_bombs(#[trigger] p[i]) == 0 && adjacent(p[i + 1], p[i])
}

/// Clicking `start` uncovers `c`: some flood-fill path leads from `start`
/// to `c`.
pub open spec fn fill_reach(s: GameState, start: Cell, c: Cell) -> bool {
    exists|p: Seq<Cell>| #[trigger] is_fill_path(s, p) && p[0] == start && p[p.len() - 1] == c
}

/// Everything a reveal of the non-bomb cell `loc` guarantees, as a relation
/// between the board before and after: the revealed set grows by exactly the
/// flood-fill-reachable cells, their counts are recorded, everything else is
/// untouched, and the outcome becomes `Win` exactly when every non-bomb cell
/// stands revealed.
pub open spec fn reveal_effect(pre: GameState, post: GameState, loc: Cell) -> bool {
    &&& post.height == pre.height
    &&& post.width == pre.width
    &&& post.bombs_seq() == pre.bombs_seq()
    &&& post.visible_bomb == pre.visible_bomb
    &&& forall|c: Cell|
        #![trigger post.revealed_set().contains(c)]
        #![trigger pre.revealed_set().contains(c)]
        #![trigger fill_reach(pre, loc, c)]
        post.revealed_set().contains(c) <==> pre.revealed_set().contains(c) || fill_reach(
            pre,
            loc,
            c,
        )
    &&& forall|c: Cell|
        #![trigger post.count_of(c)]
        pre.in_bounds(c) && !fill_reach(pre, loc, c) ==> post.count_of(c) == pre.count_of(c)
    &&& forall|c: Cell|
        #![trigger fill_reach(pre, loc, c)]
        fill_reach(pre, loc, c) ==> post.count_of(c) == pre.adj_bombs(c)
    &&& post.outcome == (if post.revealed_set().len() == pre.width * pre.height
        - pre.bombs_seq().len() {
        Outcome::Win
    } else {
        Outcome::InProgress
    })
}

/// Bounds checks, bomb tests, and neighbor counts agree on boards that share
/// dimensions and bomb layout.
pub proof fn lemma_same_board(a: GameState, b: GameState, c: Cell)
    requires
        a.width == b.width,
        a.height == b.height,
        a.bombs_seq() == b.bombs_seq(),
    ensures
        a.in_bounds(c) == b.in_bounds(c),
        a.is_bomb_cell(c) == b.is_bomb_cell(c),
        a.adj_bombs(c) == b.adj_bombs(c),
{
    assert(a.bombs_set() == b.bombs_set());
}

/// A path's one-cell start reaches itself.
pub proof fn lemma_fill_reach_self(s: GameState, start: Cell)
    requires
        s.in_bounds(start),
        !s.is_bomb_cell(start),
    ensures
        fill_reach(s, start, start),
{
    let p = seq![start];
    assert(is_fill_path(s, p));
    assert(p[0] == start && p[p.len() - 1] == start);
}

/// Extending a flood-fill path by one neighbor of its zero-count endpoint.
pub proof fn lemma_fill_reach_step(s: GameState, start: Cell, m: Cell, n: Cell)
    requires
        fill_reach(s, start, m),
        s.adj_bombs(m) == 0,
        adjacent(n, m),
        s.in_bounds(n),
        !s.is_bomb_cell(n),
    ensures
        fill_reach(s, start, n),
{
    let p = choose|p: Seq<Cell>| #[trigger] is_fill_path(s, p) && p[0] == start && p[p.len() - 1]
        == m;
    let q = p.push(n);
    assert(is_fill_path(s, q)) by {
        assert forall|i: int| 0 <= i < q.len() implies s.in_bounds(#[trigger] q[i])
            && !s.is_bomb_cell(q[i]) by {
            if i < p.len() {
                assert(q[i] == p[i]);
            }
        }
        assert forall|i: int| 0 <= i < q.len() - 1 implies s.adj_bombs(#[trigger] q[i]) == 0
            && adjacent(q[i + 1], q[i]) by {
            if i < p.len() - 1 {
                assert(q[i] == p[i] && q[i + 1] == p[i + 1]);
            } else {
                assert(q[i] == p[p.len() - 1]);
            }
        }
    }
    assert(q[0] == start && q[q.len() - 1] == n);
}

/// A cell with no adjacent bombs has no bomb among its in-bounds neighbors.
proof fn lemma_zero_count_neighbor(s: GameState, c: Cell, n: Cell)
    requires
        s.in_bounds(c),
        s.adj_bombs(c) == 0,
        s.in_bounds(n),
        adjacent(n, c),
    ensures
        !s.is_bomb_cell(n),
{
    let x = c.0 as int;
    let y = c.1 as int;
    assert(s.bomb_ind(x - 1, y - 1) == 0 && s.bomb_ind(x - 1, y) == 0 && s.bomb_ind(x - 1, y + 1)
        == 0 && s.bomb_ind(x, y - 1) == 0 && s.bomb_ind(x, y + 1) == 0 && s.bomb_ind(x + 1, y - 1)
        == 0 && s.bomb_ind(x + 1, y) == 0 && s.bomb_ind(x + 1, y + 1) == 0);
    assert(!s.bomb_at(n.0 as int, n.1 as int));
}

/// Every flood-fill path starting inside a closed set ends inside it: a set
/// that contains each in-bounds neighbor of each of its zero-count members
/// swallows whole paths.
proof fn lemma_path_stays_in_closed(s: GameState, done: Set<Cell>, p: Seq<Cell>)
    requires
        is_fill_path(s, p),
        done.contains(p[0]),
        forall|m: Cell, n: Cell|
            #![trigger done.contains(m), adjacent(n, m)]
            done.contains(m) && s.adj_bombs(m) == 0 && s.in_bounds(n) && adjacent(n, m)
                ==> done.contains(n),
    ensures
        done.contains(p[p.len() - 1]),
    decreases p.len(),
{
    if p.len() > 1 {
        assert(s.adj_bombs(p[0]) == 0 && adjacent(p[1], p[0]));
        assert(s.in_bounds(p[1]));
        assert(done.contains(p[1]));
        let q = p.subrange(1, p.len() as int);
        assert(is_fill_path(s, q)) by {
            assert forall|i: int| 0 <= i < q.len() implies s.in_bounds(#[trigger] q[i])
                && !s.is_bomb_cell(q[i]) by {
                assert(q[i] == p[i + 1]);
            }
            assert forall|i: int| 0 <= i < q.len() - 1 implies s.adj_bombs(#[trigger] q[i]) == 0
                && adjacent(q[i + 1], q[i]) by {
                assert(q[i] == p[i + 1] && q[i + 1] == p[i + 2]);
            }
        }
        lemma_path_stays_in_closed(s, done, q);
        assert(q[q.len() - 1] == p[p.len() - 1]);
    }
}

/// The cells marked in a per-call bitmap laid out like board `s`.
spec fn marked_on(s: GameState, bits: Seq<bool>) -> Set<Cell> {
    marked_set(s.width as int, s.height as int, bits)
}

/// Closure property of one flood fill: each in-bounds neighbor of each
/// zero-count processed cell has been scheduled (marked visited).
spec fn flood_closure(pre: GameState, visited: Seq<bool>, processed: Set<Cell>) -> bool {
    forall|m: Cell, n: Cell|
        #![trigger processed.contains(m), adjacent(n, m)]
        processed.contains(m) && pre.adj_bombs(m) == 0 && pre.in_bounds(n) && adjacent(n, m)
            ==> marked_on(pre, visited).contains(n)
}

/// The working state of one flood fill from `cell` on the board `pre`:
/// `visited` marks exactly the scheduled cells (the processed ones and the
/// `todo` frontier), every scheduled cell is a reachable non-bomb cell, the
/// processed cells are revealed with exact counts recorded, and nothing else
/// of the board has moved.
spec fn flood_inv(
    s: GameState,
    visited: Seq<bool>,
    todo: Seq<Cell>,
    pre: GameState,
    cell: Cell,
    processed: Set<Cell>,
) -> bool {
    &&& pre.wf()
    &&& pre.in_bounds(cell)
    &&& !pre.is_bomb_cell(cell)
    &&& s.wf()
    &&& s.width == pre.width
    &&& s.height == pre.height
    &&& s.bombs@ == pre.bombs@
    &&& s.outcome == pre.outcome
    &&& s.visible_bomb == pre.visible_bomb
    &&& visited.len() == pre.width * pre.height
    &&& todo.no_duplicates()
    &&& forall|k: int| 0 <= k < todo.len() ==> !processed.contains(#[trigger] todo[k])
    &&& forall|c: Cell|
        #![trigger marked_on(pre, visited).contains(c)]
        #![trigger processed.contains(c)]
        marked_on(pre, visited).contains(c) <==> processed.contains(c) || todo.contains(c)
    &&& forall|c: Cell| #[trigger]
        marked_on(pre, visited).contains(c) ==> pre.in_bounds(c) && !pre.is_bomb_cell(c)
            && fill_reach(pre, cell, c)
    &&& flood_closure(pre, visited, processed)
    &&& forall|c: Cell|
        #![trigger s.revealed_set().contains(c)]
        #![trigger processed.contains(c)]
        s.revealed_set().contains(c) <==> pre.revealed_set().contains(c) || processed.contains(c)
    &&& forall|c: Cell|
        #![trigger s.count_of(c)]
        pre.in_bounds(c) && !processed.contains(c) ==> s.count_of(c) == pre.count_of(c)
    &&& forall|c: Cell| #[trigger] processed.contains(c) ==> s.count_of(c) == pre.adj_bombs(c)
    &&& marked_on(pre, visited).contains(cell)
}

/// A finished flood fill processed exactly the reachable cells, and the
/// final board satisfies `reveal_effect`.
#[verifier::rlimit(100)]
proof fn lemma_click_effect(
    pre: GameState,
    settled: GameState,
    fin: GameState,
    cell: Cell,
    done: Set<Cell>,
    visited: Seq<bool>,
    todo: Seq<Cell>,
)
    requires
        flood_inv(settled, visited, todo, pre, cell, done),
        todo.len() == 0,
        fin.height == settled.height,
        fin.width == settled.width,
        fin.bombs@ == settled.bombs@,
        fin.visible_bomb == settled.visible_bomb,
        fin.revealed_squares@ == settled.revealed_squares@,
        fin.neighboring_bombs@ == settled.neighboring_bombs@,
        fin.n_revealed == settled.n_revealed,
        fin.outcome == (if settled.n_revealed == settled.width * settled.height
            - settled.bombs@.len() {
            Outcome::Win
        } else {
            Outcome::InProgress
        }),
    ensures
        reveal_effect(pre, fin, cell),
        fin.wf(),
{
    assert forall|c: Cell| #[trigger] fill_reach(pre, cell, c) implies done.contains(c) by {
        let p = choose|p: Seq<Cell>| #[trigger]
            is_fill_path(pre, p) && p[0] == cell && p[p.len() - 1] == c;
        assert forall|m: Cell, n: Cell|
            #![trigger done.contains(m), adjacent(n, m)]
            done.contains(m) && pre.adj_bombs(m) == 0 && pre.in_bounds(n) && adjacent(
                n,
                m,
            ) implies done.contains(n) by {
            assert(marked_on(pre, visited).contains(n));
            assert(!todo.contains(n));
        }
        assert(done.contains(cell)) by {
            assert(marked_on(pre, visited).contains(cell));
            assert(!todo.contains(cell));
        }
        lemma_path_stays_in_closed(pre, done, p);
    }
    assert forall|c: Cell| #[trigger] done.contains(c) implies fill_reach(pre, cell, c) by {
        assert(marked_on(pre, visited).contains(c));
    }
    assert(fin.revealed_set() == settled.revealed_set());
    assert forall|c: Cell| #![trigger fin.count_of(c)] fin.count_of(c) == settled.count_of(
        c,
    ) by {}
    assert(fin.wf()) by {
        assert forall|c: Cell| #[trigger]
            fin.revealed_set().contains(c) implies fin.count_of(c) == fin.adj_bombs(c) by {
            lemma_same_board(settled, fin, c);
        }
        assert forall|c: Cell| #[trigger]
            fin.revealed_set().contains(c) implies !fin.is_bomb_cell(c) by {
            lemma_same_board(settled, fin, c);
        }
    }
    assert(forall|c: Cell|
        #![trigger fin.revealed_set().contains(c)]
        #![trigger pre.revealed_set().contains(c)]
        #![trigger fill_reach(pre, cell, c)]
        fin.revealed_set().contains(c) <==> pre.revealed_set().contains(c) || fill_reach(
            pre,
            cell,
            c,
        ));
    assert forall|c: Cell|
        #![trigger fin.count_of(c)]
        pre.in_bounds(c) && !fill_reach(pre, cell, c) implies fin.count_of(c) == pre.count_of(
        c,
    ) by {
        if done.contains(c) {
            assert(fill_reach(pre, cell, c));
        }
    }
    assert(forall|c: Cell|
        #![trigger fill_reach(pre, cell, c)]
        fill_reach(pre, cell, c) ==> fin.count_of(c) == pre.adj_bombs(c));
    assert(fin.outcome == (if fin.revealed_set().len() == pre.width * pre.height
        - pre.bombs_seq().len() {
        Outcome::Win
    } else {
        Outcome::InProgress
    }));
}

/// Popping the last element of a duplicate-free frontier.
proof fn lemma_pop_frontier(before: Seq<Cell>, after: Seq<Cell>, next: Cell)
    requires
        before.no_duplicates(),
        before.len() > 0,
        next == before[before.len() - 1],
        after == before.subrange(0, before.len() - 1),
    ensures
        after.no_duplicates(),
        !after.contains(next),
        forall|c: Cell| #[trigger] before.contains(c) <==> after.contains(c) || c == next,
{
    assert forall|i: int, j: int|
        0 <= i < after.len() && 0 <= j < after.len() && i != j implies after[i] != after[j] by {
        assert(after[i] == before[i] && after[j] == before[j]);
    }
    assert(!after.contains(next)) by {
        if after.contains(next) {
            let k = choose|k: int| 0 <= k < after.len() && after[k] == next;
            assert(before[k] == next);
        }
    }
    assert forall|c: Cell| #[trigger] before.contains(c) implies after.contains(c) || c
        == next by {
        let k = choose|k: int| 0 <= k < before.len() && before[k] == c;
        if k < before.len() - 1 {
            assert(after[k] == c);
        }
    }
    assert forall|c: Cell| after.contains(c) || c == next implies #[trigger] before.contains(
        c,
    ) by {
        if after.contains(c) {
            let k = choose|k: int| 0 <= k < after.len() && after[k] == c;
            assert(before[k] == c);
        }
    }
}

impl GameState {
    /// Process one frontier cell: reveal it, record its count, and when the
    /// count is zero schedule its not-yet-scheduled neighbors.
    #[verifier::rlimit(100)]
    fn flood_step(
        &mut self,
        visited: &mut Vec<bool>,
        todo: &mut Vec<Cell>,
        Ghost(pre): Ghost<GameState>,
        Ghost(cell): Ghost<Cell>,
        Ghost(processed): Ghost<Set<Cell>>,
    ) -> (out: Ghost<Set<Cell>>)
        requires
            flood_inv(*old(self), old(visited)@, old(todo)@, pre, cell, processed),
            old(todo)@.len() > 0,
        ensures
            flood_inv(*final(self), final(visited)@, final(todo)@, pre, cell, out@),
            count_false(final(visited)@) + final(todo)@.len() < count_false(old(visited)@) + old(todo)@.len(),
    {
        let ghost mut done = processed;
        let ghost todo_before = todo@;
        let next = todo.pop().unwrap();
        proof {
            assert(todo_before.contains(next));
            assert(marked_on(pre, visited@).contains(next));
            lemma_pop_frontier(todo_before, todo@, next);
        }
        let cnt = self.reveal_cell(next, Ghost(pre));
        proof {
            done = done.insert(next);
        }
        if cnt == 0 {
            self.schedule_neighbors(next, visited, todo, Ghost(pre), Ghost(cell), Ghost(done));
        }
        Ghost(done)
    }

    /// Reveal one frontier cell and record its exact neighbor-bomb count.
    #[verifier::rlimit(100)]
    fn reveal_cell(&mut self, next: Cell, Ghost(pre): Ghost<GameState>) -> (count: u32)
        requires
            old(self).wf(),
            pre.wf(),
            old(self).width == pre.width,
            old(self).height == pre.height,
            old(self).bombs@ == pre.bombs@,
            pre.in_bounds(next),
            !pre.is_bomb_cell(next),
        ensures
            final(self).wf(),
            final(self).width == pre.width,
            final(self).height == pre.height,
            final(self).bombs@ == pre.bombs@,
            final(self).outcome == old(self).outcome,
            final(self).visible_bomb == old(self).visible_bomb,
            forall|c: Cell|
                #![trigger final(self).revealed_set().contains(c)]
                #![trigger old(self).revealed_set().contains(c)]
                final(self).revealed_set().contains(c) <==> old(self).revealed_set().contains(c)
                    || c == next,
            forall|c: Cell|
                #![trigger final(self).count_of(c)]
                pre.in_bounds(c) && c != next ==> final(self).count_of(c) == old(self).count_of(c),
            final(self).count_of(next) == pre.adj_bombs(next),
            count as int == pre.adj_bombs(next),
    {
        proof {
            lemma_same_board(pre, *self, next);
        }
        let i = self.index_of(next);
        let ghost revealed_before = self.revealed_squares@;
        if !self.revealed_squares[i] {
            proof {
                lemma_marked_set_update(pre.width as int, pre.height as int, revealed_before, next);
                lemma_marked_set_bound(
                    self.width,
                    self.height,
                    revealed_before.update(cell_index(pre.height as int, next), true),
                );
            }
            self.revealed_squares.set(i, true);
            self.n_revealed = self.n_revealed + 1;
            proof {
                assert(self.revealed_set() == marked_set(
                    pre.width as int,
                    pre.height as int,
                    revealed_before,
                ).insert(next));
            }
        } else {
            proof {
                assert(self.revealed_set().contains(next));
            }
        }
        let cnt = self.adjacent_bomb_count(next);
        let ghost counts_before = self.neighboring_bombs@;
        self.neighboring_bombs.set(i, cnt);
        proof {
            assert(pre.adj_bombs(next) == self.adj_bombs(next)) by {
                lemma_same_board(pre, *self, next);
            }
            assert forall|c: Cell|
                pre.in_bounds(c) && c != next implies #[trigger] self.count_of(c)
                == counts_before[cell_index(pre.height as int, c)] by {
                lemma_cell_index_bounds(pre.width as int, pre.height as int, c);
                if cell_index(pre.height as int, c) == cell_index(pre.height as int, next) {
                    lemma_cell_index_injective(pre.width as int, pre.height as int, c, next);
                }
            }
            assert forall|c: Cell| #[trigger]
                self.revealed_set().contains(c) implies self.count_of(c) == self.adj_bombs(c) by {
                lemma_same_board(pre, *self, c);
            }
        }
        cnt
    }

    /// Schedule the not-yet-visited neighbors of a zero-count processed
    /// cell onto the frontier.
    #[verifier::rlimit(100)]
    fn schedule_neighbors(
        &self,
        next: Cell,
        visited: &mut Vec<bool>,
        todo: &mut Vec<Cell>,
        Ghost(pre): Ghost<GameState>,
        Ghost(cell): Ghost<Cell>,
        Ghost(done): Ghost<Set<Cell>>,
    )
        requires
            pre.wf(),
            pre.in_bounds(cell),
            !pre.is_bomb_cell(cell),
            self.width == pre.width,
            self.height == pre.height,
            self.bombs@ == pre.bombs@,
            pre.in_bounds(next),
            pre.adj_bombs(next) == 0,
            done.contains(next),
            old(visited)@.len() == pre.width * pre.height,
            old(todo)@.no_duplicates(),
            forall|k: int| 0 <= k < old(todo)@.len() ==> !done.contains(#[trigger] old(todo)@[k]),
            forall|c: Cell|
                #![trigger marked_on(pre, old(visited)@).contains(c)]
                #![trigger done.contains(c)]
                marked_on(pre, old(visited)@).contains(c) <==> done.contains(c) || old(todo)@.contains(c),
            forall|c: Cell| #[trigger]
                marked_on(pre, old(visited)@).contains(c) ==> pre.in_bounds(c)
                    && !pre.is_bomb_cell(c) && fill_reach(pre, cell, c),
            forall|m: Cell, n: Cell|
                #![trigger done.contains(m), adjacent(n, m)]
                done.contains(m) && pre.adj_bombs(m) == 0 && pre.in_bounds(n) && adjacent(n, m)
                    ==> marked_on(pre, old(visited)@).contains(n) || m == next,
            marked_on(pre, old(visited)@).contains(cell),
        ensures
            final(visited)@.len() == pre.width * pre.height,
            final(todo)@.no_duplicates(),
            forall|k: int|
                0 <= k < final(todo)@.len() ==> !done.contains(#[trigger] final(todo)@[k]),
            forall|c: Cell|
                #![trigger marked_on(pre, final(visited)@).contains(c)]
                #![trigger done.contains(c)]
                marked_on(pre, final(visited)@).contains(c) <==> done.contains(c) || final(todo)@.contains(c),
            forall|c: Cell| #[trigger]
                marked_on(pre, final(visited)@).contains(c) ==> pre.in_bounds(c)
                    && !pre.is_bomb_cell(c) && fill_reach(pre, cell, c),
            flood_closure(pre, final(visited)@, done),
            marked_on(pre, final(visited)@).contains(cell),
            count_false(final(visited)@) + final(todo)@.len() <= count_false(old(visited)@) + old(todo)@.len(),
    {
        let ns = neighbors(self, next);
        let ghost visited_entry = visited@;
        let ghost todo_entry = todo@;
        let mut j: usize = 0;
        while j < ns.len()
            invariant
                pre.wf(),
                pre.in_bounds(cell),
                !pre.is_bomb_cell(cell),
                self.width == pre.width,
                self.height == pre.height,
                self.bombs@ == pre.bombs@,
                visited@.len() == pre.width * pre.height,
                j <= ns@.len(),
                pre.in_bounds(next),
                pre.adj_bombs(next) == 0,
                done.contains(next),
                ns@.no_duplicates(),
                forall|c: Cell| #[trigger]
                    ns@.contains(c) <==> pre.in_bounds(c) && adjacent(c, next),
                forall|k: int|
                    0 <= k < j ==> marked_on(pre, visited@).contains(#[trigger] ns@[k]),
                todo@.no_duplicates(),
                forall|k: int| 0 <= k < todo@.len() ==> !done.contains(#[trigger] todo@[k]),
                forall|c: Cell|
                    #![trigger marked_on(pre, visited@).contains(c)]
                    #![trigger done.contains(c)]
                    marked_on(pre, visited@).contains(c) <==> done.contains(c)
                        || todo@.contains(c),
                forall|c: Cell| #[trigger]
                    marked_on(pre, visited@).contains(c) ==> pre.in_bounds(c)
                        && !pre.is_bomb_cell(c) && fill_reach(pre, cell, c),
                forall|m: Cell, n: Cell|
                    #![trigger done.contains(m), adjacent(n, m)]
                    done.contains(m) && pre.adj_bombs(m) == 0 && pre.in_bounds(n) && adjacent(
                        n,
                        m,
                    ) ==> marked_on(pre, visited@).contains(n) || (m == next && ns@.contains(
                        n,
                    )),
                marked_on(pre, visited@).contains(cell),
                count_false(visited@) + todo@.len() <= count_false(visited_entry)
                    + todo_entry.len(),
            decreases ns@.len() - j,
        {
            let nb = ns[j];
            proof {
                assert(ns@.contains(nb));
            }
            let ni = self.index_of(nb);
            let ghost visited_before = visited@;
            if !visited[ni] {
                proof {
                    lemma_zero_count_neighbor(pre, next, nb);
                    lemma_fill_reach_step(pre, cell, next, nb);
                    lemma_marked_set_update(
                        pre.width as int,
                        pre.height as int,
                        visited_before,
                        nb,
                    );
                    lemma_count_false_update(
                        visited_before,
                        cell_index(pre.height as int, nb),
                    );
                }
                visited.set(ni, true);
                todo.push(nb);
                proof {
                    assert(marked_on(pre, visited@) == marked_on(pre, visited_before).insert(
                        nb,
                    ));
                    assert(!marked_on(pre, visited_before).contains(nb));
                    assert(!todo@.subrange(0, todo@.len() - 1).contains(nb));
                }
            }
            j += 1;
        }
        proof {
            assert forall|m: Cell, n: Cell|
                #![trigger done.contains(m), adjacent(n, m)]
                done.contains(m) && pre.adj_bombs(m) == 0 && pre.in_bounds(n) && adjacent(
                    n,
                    m,
                ) implies marked_on(pre, visited@).contains(n) by {
                if m == next && !marked_on(pre, visited@).contains(n) {
                    assert(ns@.contains(n));
                    let k = choose|k: int| 0 <= k < ns@.len() && ns@[k] == n;
                    assert(marked_on(pre, visited@).contains(ns@[k]));
                }
            }
        }
    }

    /// Process a primary click on `cell`: on a bomb, record it and lose; on
    /// any other cell, flood-fill-reveal from it and detect a win. The exact
    /// effect of the non-bomb case is `reveal_effect`.
    #[verifier::rlimit(100)]
    pub fn click(&mut self, cell: Cell)
        requires
            old(self).wf(),
            old(self).in_bounds(cell),
            old(self).outcome == Outcome::InProgress,
        ensures
            final(self).wf(),
            final(self).height == old(self).height,
            final(self).width == old(self).width,
            final(self).bombs_seq() == old(self).bombs_seq(),
            old(self).is_bomb_cell(cell) ==> {
                &&& final(self).outcome == Outcome::Lose
                &&& final(self).visible_bomb == Some(cell)
                &&& final(self).revealed_set() == old(self).revealed_set()
                &&& final(self).revealed_squares@ == old(self).revealed_squares@
                &&& final(self).neighboring_bombs@ == old(self).neighboring_bombs@
            },
            !old(self).is_bomb_cell(cell) ==> reveal_effect(*old(self), *final(self), cell),
    {
        if self.is_bomb(cell) {
            self.visible_bomb = Some(cell);
            self.outcome = Outcome::Lose;
            return;
        }
        let ghost pre = *self;
        let total = self.width * self.height;
        let mut visited = bool_grid(total);
        let mut todo: Vec<Cell> = Vec::new();
        let vi = self.index_of(cell);
        proof {
            lemma_marked_set_empty(pre.width as int, pre.height as int, visited@);
            lemma_marked_set_update(pre.width as int, pre.height as int, visited@, cell);
        }
        visited.set(vi, true);
        todo.push(cell);
        let mut scheduled: Ghost<Set<Cell>> = Ghost(Set::<Cell>::empty());
        proof {
            lemma_fill_reach_self(pre, cell);
            assert(marked_on(pre, visited@) == Set::<Cell>::empty().insert(cell));
            assert(flood_inv(*self, visited@, todo@, pre, cell, scheduled@));
        }
        while todo.len() > 0
            invariant
                flood_inv(*self, visited@, todo@, pre, cell, scheduled@),
            decreases count_false(visited@) + todo@.len(),
        {
            scheduled = self.flood_step(&mut visited, &mut todo, Ghost(pre), Ghost(cell), scheduled);
        }
        let ghost settled = *self;
        let bombs_total = self.bombs.len();
        if self.n_revealed == total - bombs_total {
            self.outcome = Outcome::Win;
        }
        proof {
            lemma_click_effect(pre, settled, *self, cell, scheduled@, visited@, todo@);
        }
    }
}

/// A vector of `n` cleared flags.
fn bool_grid(n: usize) -> (v: Vec<bool>)
    ensures
        v@.len() == n,
        forall|i: int| 0 <= i < n ==> !v@[i],
{
    let mut v: Vec<bool> = Vec::new();
    let mut i: usize = 0;
    while i < n
        invariant
            i <= n,
            v@.len() == i,
            forall|j: int| 0 <= j < i ==> !v@[j],
        decreases n - i,
    {
        v.push(false);
        i += 1;
    }
    v
}

/// A vector of `n` zero counts.
fn count_grid(n: usize) -> (v: Vec<u32>)
    ensures
        v@.len() == n,
{
    let mut v: Vec<u32> = Vec::new();
    let mut i: usize = 0;
    while i < n
        invariant
            i <= n,
            v@.len() == i,
        decreases n - i,
    {
        v.push(0);
        i += 1;
    }
    v
}

} // verus!
