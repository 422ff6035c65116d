//! Grid geometry: cells, bounds, 8-adjacency, and counting lemmas for
//! grid-indexed bitmaps.

use vstd::prelude::*;

verus! {

broadcast use vstd::set::group_set_axioms;

/// One grid location, addressed by zero-based (column, row).
pub type Cell = (usize, usize);

/// The cell lies inside a `width` x `height` grid.
pub open spec fn cell_in_bounds(width: int, height: int, c: Cell) -> bool {
    (c.0 as int) < width && (c.1 as int) < height
}

/// Chebyshev distance one: `a` is one of the up-to-8 cells surrounding `b`.
pub open spec fn adjacent(a: Cell, b: Cell) -> bool {
    &&& a != b
    &&& a.0 <= b.0 + 1 && b.0 <= a.0 + 1
    &&& a.1 <= b.1 + 1 && b.1 <= a.1 + 1
}

/// All cells of a `width` x `height` grid.
pub open spec fn grid_set(width: int, height: int) -> Set<Cell> {
    Set::new(|c: Cell| cell_in_bounds(width, height, c))
}

/// Row-major-by-column position of a cell in a grid-indexed vector.
pub open spec fn cell_index(height: int, c: Cell) -> int {
    c.0 as int * height + c.1 as int
}

/// The set of cells whose entry in a grid-indexed bitmap is set.
pub open spec fn marked_set(width: int, height: int, bits: Seq<bool>) -> Set<Cell> {
    Set::new(|c: Cell| cell_in_bounds(width, height, c) && bits[cell_index(height, c)])
}

/// A cell's index lies inside the vector that backs the grid.
pub proof fn lemma_cell_index_bounds(width: int, height: int, c: Cell)
    requires
        cell_in_bounds(width, height, c),
    ensures
        0 <= cell_index(height, c) < width * height,
{
    assert((c.0 as int) * height + (c.1 as int) < width * height) by (nonlinear_arith)
        requires
            0 <= (c.0 as int) < width,
            0 <= (c.1 as int) < height,
    ;
}

/// Distinct in-bounds cells occupy distinct indices.
pub proof fn lemma_cell_index_injective(width: int, height: int, a: Cell, b: Cell)
    requires
        cell_in_bounds(width, height, a),
        cell_in_bounds(width, height, b),
        cell_index(height, a) == cell_index(height, b),
    ensures
        a == b,
{
    assert(a.0 == b.0 && a.1 == b.1) by (nonlinear_arith)
        requires
            0 <= (a.0 as int) < width,
            0 <= (a.1 as int) < height,
            0 <= (b.0 as int) < width,
            0 <= (b.1 as int) < height,
            (a.0 as int) * height + (a.1 as int) == (b.0 as int) * height + (b.1 as int),
    ;
}

/// Setting one cell's bit marks exactly that cell.
pub proof fn lemma_marked_set_update(width: int, height: int, bits: Seq<bool>, c: Cell)
    requires
        cell_in_bounds(width, height, c),
        bits.len() == width * height,
    ensures
        marked_set(width, height, bits.update(cell_index(height, c), true))
            == marked_set(width, height, bits).insert(c),
{
    lemma_cell_index_bounds(width, height, c);
    let updated = marked_set(width, height, bits.update(cell_index(height, c), true));
    let inserted = marked_set(width, height, bits).insert(c);
    assert forall|d: Cell| updated.contains(d) implies inserted.contains(d) by {
        if d != c {
            lemma_cell_index_bounds(width, height, d);
            if cell_index(height, d) == cell_index(height, c) {
                lemma_cell_index_injective(width, height, c, d);
            }
        }
    }
    assert forall|d: Cell| inserted.contains(d) implies updated.contains(d) by {
        if d != c {
            lemma_cell_index_bounds(width, height, d);
            if cell_index(height, d) == cell_index(height, c) {
                lemma_cell_index_injective(width, height, c, d);
            }
        }
    }
    assert(updated =~= inserted);
}

/// An all-false bitmap marks no cell.
pub proof fn lemma_marked_set_empty(width: int, height: int, bits: Seq<bool>)
    requires
        forall|i: int| 0 <= i < bits.len() ==> !bits[i],
        bits.len() == width * height,
    ensures
        marked_set(width, height, bits) == Set::<Cell>::empty(),
{
    assert forall|d: Cell| !marked_set(width, height, bits).contains(d) by {
        if cell_in_bounds(width, height, d) {
            lemma_cell_index_bounds(width, height, d);
        }
    }
    assert(marked_set(width, height, bits) =~= Set::<Cell>::empty());
}

/// The prefix of the grid in column-major enumeration order: all of the first
/// `x` columns, and the first `y` cells of column `x`.
pub open spec fn grid_prefix(height: int, x: int, y: int) -> Set<Cell> {
    Set::new(
        |c: Cell| (c.1 as int) < height && ((c.0 as int) < x || (c.0 as int == x && (c.1 as int) < y)),
    )
}

/// Cardinality of a grid prefix.
pub proof fn lemma_grid_prefix_len(height: usize, x: usize, y: usize)
    requires
        y <= height,
    ensures
        grid_prefix(height as int, x as int, y as int).finite(),
        grid_prefix(height as int, x as int, y as int).len() == x * height + y,
    decreases x, y,
{
    let h = height as int;
    if y > 0 {
        lemma_grid_prefix_len(height, x, (y - 1) as usize);
        let prev = grid_prefix(h, x as int, y - 1);
        assert(!prev.contains((x, (y - 1) as usize)));
        assert(grid_prefix(h, x as int, y as int) =~= prev.insert((x, (y - 1) as usize)));
        assert(prev.insert((x, (y - 1) as usize)).len() == prev.len() + 1);
        assert(prev.insert((x, (y - 1) as usize)).finite());
    } else if x > 0 {
        let x1 = (x - 1) as usize;
        lemma_grid_prefix_len(height, x1, height);
        assert(grid_prefix(h, x as int, 0) =~= grid_prefix(h, x1 as int, h));
        assert(x1 * height + height == x * height) by (nonlinear_arith)
            requires
                x1 as int == x as int - 1,
        ;
    } else {
        assert(Set::<Cell>::empty().len() == 0);
        assert(grid_prefix(h, 0, 0) =~= Set::<Cell>::empty());
        assert(x == 0);
        assert(x * height == 0);
    }
}

/// The grid is finite and has `width * height` cells.
pub proof fn lemma_grid_set_len(width: usize, height: usize)
    ensures
        grid_set(width as int, height as int).finite(),
        grid_set(width as int, height as int).len() == width * height,
{
    lemma_grid_prefix_len(height, width, 0);
    assert(grid_set(width as int, height as int) =~= grid_prefix(height as int, width as int, 0));
}

/// A marked set is a subset of the grid, hence finite and no larger.
pub proof fn lemma_marked_set_bound(width: usize, height: usize, bits: Seq<bool>)
    ensures
        marked_set(width as int, height as int, bits).finite(),
        marked_set(width as int, height as int, bits).len() <= width * height,
{
    let m = marked_set(width as int, height as int, bits);
    let g = grid_set(width as int, height as int);
    lemma_grid_set_len(width, height);
    assert(m.subset_of(g));
    vstd::set_lib::lemma_set_subset_finite(g, m);
    vstd::set_lib::lemma_len_subset(m, g);
}

/// The number of unset entries of a bitmap, used as a termination measure.
pub open spec fn count_false(bits: Seq<bool>) -> nat
    decreases bits.len(),
{
    if bits.len() == 0 {
        0
    } else {
        (if bits[0] {
            0nat
        } else {
            1nat
        }) + count_false(bits.drop_first())
    }
}

/// Setting an unset bit lowers `count_false` by one.
pub proof fn lemma_count_false_update(bits: Seq<bool>, i: int)
    requires
        0 <= i < bits.len(),
        !bits[i],
    ensures
        count_false(bits.update(i, true)) + 1 == count_false(bits),
    decreases bits.len(),
{
    if i == 0 {
        assert(bits.update(0, true).drop_first() =~= bits.drop_first());
    } else {
        assert(bits.update(i, true).drop_first() =~= bits.drop_first().update(i - 1, true));
        lemma_count_false_update(bits.drop_first(), i - 1);
    }
}

} // verus!
