//! Geometry of the 7x7 grid: cells are numbered 0..49 in row-major order
//! (row = index / 7, column = index % 7). These specification functions give
//! the mathematical meaning that the bit-level board operations are proved
//! against: directional shifts, the Moore neighbourhood, and four-in-a-line.

use vstd::prelude::*;

verus! {

/// A cell index denotes a cell of the 7x7 grid.
pub open spec fn valid_cell(p: int) -> bool {
    0 <= p < 49
}

/// The set of all 49 cell indices.
pub open spec fn grid_cells() -> Set<int> {
    Set::new(|p: int| valid_cell(p))
}

/// Row of a cell index.
pub open spec fn row_of(p: int) -> int {
    p / 7
}

/// Column of a cell index.
pub open spec fn col_of(p: int) -> int {
    p % 7
}

/// A (row, column) pair that lies on the grid.
pub open spec fn in_grid(row: int, col: int) -> bool {
    0 <= row < 7 && 0 <= col < 7
}

/// Cell index of a (row, column) pair.
pub open spec fn cell(row: int, col: int) -> int {
    row * 7 + col
}

/// A unit king-move step: one of the eight compass directions.
pub open spec fn is_direction(dr: int, dc: int) -> bool {
    -1 <= dr <= 1 && -1 <= dc <= 1 && (dr != 0 || dc != 0)
}

/// Two cells of the grid are adjacent when they differ by one king-move step.
pub open spec fn adjacent(p: int, q: int) -> bool {
    valid_cell(p) && valid_cell(q) && is_direction(row_of(p) - row_of(q), col_of(p) - col_of(q))
}

/// The set `s` translated by one step in direction `(dr, dc)`: cell `p` is in
/// the result exactly when the cell one step back lies on the grid and is in
/// `s`. Stones whose target would leave the grid drop out; in particular a
/// stone never wraps from the last column of a row into the first column of
/// the next.
pub open spec fn shifted(s: Set<int>, dr: int, dc: int) -> Set<int> {
    Set::new(
        |p: int|
            valid_cell(p) && in_grid(row_of(p) - dr, col_of(p) - dc) && s.contains(
                cell(row_of(p) - dr, col_of(p) - dc),
            ),
    )
}

/// The Moore neighbourhood of `s`: every grid cell adjacent to some cell of `s`.
pub open spec fn neighborhood(s: Set<int>) -> Set<int> {
    Set::new(|p: int| exists|q: int| s.contains(q) && adjacent(p, q))
}

/// Four collinear cells of `s`, starting at `(row, col)` and stepping by
/// `(dr, dc)`, all on the grid.
pub open spec fn line4_at(s: Set<int>, row: int, col: int, dr: int, dc: int) -> bool {
    &&& in_grid(row, col) && s.contains(cell(row, col))
    &&& in_grid(row + dr, col + dc) && s.contains(cell(row + dr, col + dc))
    &&& in_grid(row + 2 * dr, col + 2 * dc) && s.contains(cell(row + 2 * dr, col + 2 * dc))
    &&& in_grid(row + 3 * dr, col + 3 * dc) && s.contains(cell(row + 3 * dr, col + 3 * dc))
}

/// `s` holds four in a line in some direction.
pub open spec fn has_four_line(s: Set<int>) -> bool {
    exists|row: int, col: int, dr: int, dc: int|
        is_direction(dr, dc) && line4_at(s, row, col, dr, dc)
}

/// A valid cell index is the cell of its own row and column, which lie on the
/// grid.
pub proof fn lemma_cell_decomp(p: int)
    requires
        valid_cell(p),
    ensures
        in_grid(row_of(p), col_of(p)),
        cell(row_of(p), col_of(p)) == p,
{
    assert(7 * (p / 7) + p % 7 == p && 0 <= p % 7 < 7 && 0 <= p / 7 < 7) by (nonlinear_arith)
        requires
            0 <= p < 49,
    ;
}

/// Bit-parallel line detection, one direction at a time: the intersection of
/// `s` with its one-, two- and three-step shifts along `(dr, dc)` is inhabited
/// exactly when `s` holds four in a line along `(dr, dc)`; each member of that
/// intersection is the final cell of such a line.
pub proof fn lemma_ray4(s: Set<int>, dr: int, dc: int, w: Set<int>)
    requires
        is_direction(dr, dc),
        w == s.intersect(shifted(s, dr, dc)).intersect(
            shifted(shifted(s, dr, dc), dr, dc),
        ).intersect(shifted(shifted(shifted(s, dr, dc), dr, dc), dr, dc)),
    ensures
        !w.is_empty() <==> exists|row: int, col: int| line4_at(s, row, col, dr, dc),
{
    let s1 = shifted(s, dr, dc);
    let s2 = shifted(s1, dr, dc);
    let s3 = shifted(s2, dr, dc);
    if exists|p: int| w.contains(p) {
        let p = choose|p: int| w.contains(p);
        lemma_cell_decomp(p);
        let row = row_of(p);
        let col = col_of(p);
        lemma_cell_coords(row - dr, col - dc);
        let q1 = cell(row - dr, col - dc);
        lemma_cell_coords(row - 2 * dr, col - 2 * dc);
        let q2 = cell(row - 2 * dr, col - 2 * dc);
        lemma_cell_coords(row - 3 * dr, col - 3 * dc);
        assert(s1.contains(q1) && s.contains(q2));
        assert(s1.contains(q2));
        assert(line4_at(s, row - 3 * dr, col - 3 * dc, dr, dc));
        assert(!w.is_empty());
    } else {
        assert(w =~= Set::<int>::empty());
        if exists|row: int, col: int| line4_at(s, row, col, dr, dc) {
            let (row, col) = choose|row: int, col: int| line4_at(s, row, col, dr, dc);
            lemma_cell_coords(row, col);
            lemma_cell_coords(row + dr, col + dc);
            lemma_cell_coords(row + 2 * dr, col + 2 * dc);
            lemma_cell_coords(row + 3 * dr, col + 3 * dc);
            let p = cell(row + 3 * dr, col + 3 * dc);
            assert(cell(row + 2 * dr, col + 2 * dc) == p - 7 * dr - dc);
            assert(cell(row + dr, col + dc) == p - 2 * (7 * dr + dc));
            assert(cell(row, col) == p - 3 * (7 * dr + dc));
            assert(s1.contains(p) && s1.contains(cell(row + 2 * dr, col + 2 * dc)) && s1.contains(
                cell(row + dr, col + dc),
            ));
            assert(s2.contains(p) && s2.contains(cell(row + 2 * dr, col + 2 * dc)));
            assert(s3.contains(p));
            assert(w.contains(p));
        }
    }
}

/// A line in one particular direction witnesses `has_four_line`.
pub proof fn lemma_line_in_direction(s: Set<int>, dr: int, dc: int)
    requires
        is_direction(dr, dc),
        exists|row: int, col: int| #[trigger] line4_at(s, row, col, dr, dc),
    ensures
        has_four_line(s),
{
    let (row, col) = choose|row: int, col: int| #[trigger] line4_at(s, row, col, dr, dc);
    assert(is_direction(dr, dc) && line4_at(s, row, col, dr, dc));
}

/// Row and column of the cell index of an on-grid (row, column) pair.
pub proof fn lemma_cell_coords(row: int, col: int)
    requires
        in_grid(row, col),
    ensures
        valid_cell(cell(row, col)),
        row_of(cell(row, col)) == row,
        col_of(cell(row, col)) == col,
{
    assert((row * 7 + col) / 7 == row && (row * 7 + col) % 7 == col && 0 <= row * 7 + col < 49)
        by (nonlinear_arith)
        requires
            0 <= row < 7 && 0 <= col < 7,
    ;
}

} // verus!
