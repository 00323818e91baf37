//! Bit-packed cell sets. A `Board` stores one player's stones as a 49-bit
//! membership set inside a 64-bit word (bit `p` set means cell `p` is
//! occupied; bits 49..64 are always zero). The directional shift operators
//! mask out the column that would otherwise wrap across a row boundary, and
//! every operation is proved against the set-level geometry of `crate::grid`.

use vstd::prelude::*;

use crate::grid::adjacent;
use crate::grid::cell;
use crate::grid::col_of;
use crate::grid::grid_cells;
use crate::grid::in_grid;
use crate::grid::is_direction;
use crate::grid::lemma_cell_coords;
use crate::grid::lemma_cell_decomp;
use crate::grid::neighborhood;
use crate::grid::row_of;
use crate::grid::shifted;
use crate::grid::valid_cell;

verus! {

/// Bit `i` of `v`.
pub open spec fn get_bit(v: u64, i: u64) -> bool {
    (v >> i) & 1u64 == 1u64
}

/// The set of grid cells whose bit is set in `v`.
pub open spec fn bits_set(v: u64) -> Set<int> {
    Set::new(|p: int| valid_cell(p) && get_bit(v, p as u64))
}

/// A cell of the 7x7 grid, as a row-major index in `[0, 49)`:
/// row = index / 7, column = index % 7. Values at or above 49 are a caller
/// contract violation, so construction requires the bound.
#[derive(Clone, Copy, Debug, PartialEq, Eq)]
pub struct Position(pub(crate) u64);

impl View for Position {
    type V = int;

    closed spec fn view(&self) -> int {
        self.0 as int
    }
}

impl Position {
    /// Every `Position` denotes a cell of the grid; `use_type_invariant`
    /// recovers this fact about any `Position` value.
    #[verifier::type_invariant]
    pub open spec fn on_grid(self) -> bool {
        valid_cell(self@)
    }

    /// Wrap a row-major cell index. Callers must validate the bound first.
    pub fn new(value: u64) -> (r: Position)
        requires
            value < 49,
        ensures
            r@ == value,
    {
        Position(value)
    }
}

/// An immutable 49-bit membership set over the grid cells.
#[derive(Clone, Copy, Debug, PartialEq, Eq)]
pub struct Board(u64);

impl View for Board {
    type V = Set<int>;

    closed spec fn view(&self) -> Set<int> {
        bits_set(self.0)
    }
}

proof fn lemma_zero_bits()
    by (bit_vector)
    ensures
        forall|p: u64| !get_bit(0u64, p),
{
}

proof fn lemma_full_bits()
    by (bit_vector)
    ensures
        forall|p: u64| p < 49 ==> get_bit(0x1FFFFFFFFFFFFu64, p),
        forall|p: u64| p >= 49 ==> !get_bit(0x1FFFFFFFFFFFFu64, p),
{
}

/// The zero word denotes the empty set.
pub proof fn lemma_zero_view()
    ensures
        bits_set(0) == Set::<int>::empty(),
{
    lemma_zero_bits();
    assert(bits_set(0) =~= Set::<int>::empty());
}

/// The word with all 49 board bits set denotes the whole grid.
pub proof fn lemma_full_view()
    ensures
        bits_set(0x1FFFFFFFFFFFF) == grid_cells(),
{
    lemma_full_bits();
    assert(bits_set(0x1FFFFFFFFFFFF) =~= grid_cells());
}

proof fn lemma_singleton_bits(i: u64)
    by (bit_vector)
    requires
        i < 49,
    ensures
        (1u64 << i) < 0x2000000000000,
        forall|p: u64| p < 64 ==> #[trigger] get_bit(1u64 << i, p) == (p == i),
{
}

proof fn lemma_or_bits(a: u64, b: u64)
    by (bit_vector)
    requires
        a < 0x2000000000000,
        b < 0x2000000000000,
    ensures
        (a | b) < 0x2000000000000,
        forall|p: u64| #[trigger] get_bit(a | b, p) == (get_bit(a, p) || get_bit(b, p)),
{
}

proof fn lemma_and_bits(a: u64, b: u64)
    by (bit_vector)
    requires
        a < 0x2000000000000,
        b < 0x2000000000000,
    ensures
        (a & b) < 0x2000000000000,
        forall|p: u64| #[trigger] get_bit(a & b, p) == (get_bit(a, p) && get_bit(b, p)),
{
}

proof fn lemma_xor_full_bits(a: u64)
    by (bit_vector)
    requires
        a < 0x2000000000000,
    ensures
        (a ^ 0x1FFFFFFFFFFFFu64) < 0x2000000000000,
        forall|p: u64|
            p < 49 ==> #[trigger] get_bit(a ^ 0x1FFFFFFFFFFFFu64, p) == !get_bit(a, p),
        forall|p: u64| p >= 49 ==> !get_bit(a ^ 0x1FFFFFFFFFFFFu64, p),
{
}

/// If some bit below 49 is set, the word is not zero; conversely a nonzero
/// 49-bit word has a set bit below 49.
proof fn lemma_nonzero_has_bit(v: u64)
    requires
        v != 0,
        v < 0x2000000000000,
    ensures
        exists|p: int| valid_cell(p) && get_bit(v, p as u64),
    decreases v,
{
    if v & 1 == 1 {
        assert(get_bit(v, 0u64)) by (bit_vector)
            requires
                v & 1 == 1,
        ;
        assert(valid_cell(0) && get_bit(v, 0 as u64));
    } else {
        assert((v >> 1u64) != 0 && (v >> 1u64) < 0x2000000000000 && (v >> 1u64) < v)
            by (bit_vector)
            requires
                v != 0 && v & 1 != 1 && v < 0x2000000000000,
        ;
        let h = v >> 1u64;
        lemma_nonzero_has_bit(h);
        let p = choose|p: int| valid_cell(p) && get_bit(h, p as u64);
        let pu = p as u64;
        assert(get_bit(v >> 1u64, pu) && pu < 49 ==> get_bit(v, (pu + 1) as u64)) by (bit_vector);
        assert(valid_cell(p + 1) ==> get_bit(v, (p + 1) as u64));
        if p + 1 < 49 {
            assert(valid_cell(p + 1) && get_bit(v, (p + 1) as u64));
        } else {
            // bit 48 of `h` cannot be set, since `v` fits in 49 bits
            assert(!get_bit(v >> 1u64, 48u64)) by (bit_vector)
                requires
                    v < 0x2000000000000,
            ;
        }
    }
}

/// Transfers a per-bit characterisation of a shifted word to the set level:
/// if bit `p` of `w` says "the cell one `(dr, dc)`-step back is on the grid
/// and set in `v`", then `w` denotes the shifted set.
proof fn lemma_view_shifted(v: u64, w: u64, dr: int, dc: int)
    requires
        is_direction(dr, dc),
        forall|p: int|
            0 <= p < 49 ==> #[trigger] get_bit(w, p as u64) == (in_grid(
                row_of(p) - dr,
                col_of(p) - dc,
            ) && get_bit(v, (p - 7 * dr - dc) as u64)),
    ensures
        bits_set(w) == shifted(bits_set(v), dr, dc),
{
    assert forall|p: int| #[trigger]
        bits_set(w).contains(p) == shifted(bits_set(v), dr, dc).contains(p) by {
        if valid_cell(p) {
            lemma_cell_decomp(p);
            if in_grid(row_of(p) - dr, col_of(p) - dc) {
                lemma_cell_coords(row_of(p) - dr, col_of(p) - dc);
                assert(cell(row_of(p) - dr, col_of(p) - dc) == p - 7 * dr - dc);
            }
        }
    }
    assert(bits_set(w) =~= shifted(bits_set(v), dr, dc));
}

proof fn lemma_east_bits(v: u64)
    by (bit_vector)
    requires
        v < 0x2000000000000,
    ensures
        ((v << 1) & 0x1FBF7EFDFBF7Eu64) < 0x2000000000000,
        forall|p: u64|
            p < 49 ==> #[trigger] get_bit((v << 1) & 0x1FBF7EFDFBF7Eu64, p) == (p % 7 != 0
                && get_bit(v, (p - 1) as u64)),
{
}

proof fn lemma_west_bits(v: u64)
    by (bit_vector)
    requires
        v < 0x2000000000000,
    ensures
        ((v >> 1) & 0xFDFBF7EFDFBFu64) < 0x2000000000000,
        forall|p: u64|
            p < 49 ==> #[trigger] get_bit((v >> 1) & 0xFDFBF7EFDFBFu64, p) == (p % 7 != 6
                && get_bit(v, (p + 1) as u64)),
{
}

proof fn lemma_north_bits(v: u64)
    by (bit_vector)
    requires
        v < 0x2000000000000,
    ensures
        ((v >> 7) & 0x1FFFFFFFFFFFFu64) < 0x2000000000000,
        forall|p: u64|
            p < 49 ==> #[trigger] get_bit((v >> 7) & 0x1FFFFFFFFFFFFu64, p) == (p < 42
                && get_bit(v, (p + 7) as u64)),
{
}

proof fn lemma_south_bits(v: u64)
    by (bit_vector)
    requires
        v < 0x2000000000000,
    ensures
        ((v << 7) & 0x1FFFFFFFFFFFFu64) < 0x2000000000000,
        forall|p: u64|
            p < 49 ==> #[trigger] get_bit((v << 7) & 0x1FFFFFFFFFFFFu64, p) == (p >= 7
                && get_bit(v, (p - 7) as u64)),
{
}

proof fn lemma_northeast_bits(v: u64)
    by (bit_vector)
    requires
        v < 0x2000000000000,
    ensures
        ((v >> 6) & 0x1FBF7EFDFBF7Eu64) < 0x2000000000000,
        forall|p: u64|
            p < 49 ==> #[trigger] get_bit((v >> 6) & 0x1FBF7EFDFBF7Eu64, p) == (p % 7 != 0 && p
                < 42 && get_bit(v, (p + 6) as u64)),
{
}

proof fn lemma_northwest_bits(v: u64)
    by (bit_vector)
    requires
        v < 0x2000000000000,
    ensures
        ((v >> 8) & 0xFDFBF7EFDFBFu64) < 0x2000000000000,
        forall|p: u64|
            p < 49 ==> #[trigger] get_bit((v >> 8) & 0xFDFBF7EFDFBFu64, p) == (p % 7 != 6 && p
                < 42 && get_bit(v, (p + 8) as u64)),
{
}

proof fn lemma_southeast_bits(v: u64)
    by (bit_vector)
    requires
        v < 0x2000000000000,
    ensures
        ((v << 8) & 0x1FBF7EFDFBF7Eu64) < 0x2000000000000,
        forall|p: u64|
            p < 49 ==> #[trigger] get_bit((v << 8) & 0x1FBF7EFDFBF7Eu64, p) == (p % 7 != 0 && p
                >= 7 && get_bit(v, (p - 8) as u64)),
{
}

proof fn lemma_southwest_bits(v: u64)
    by (bit_vector)
    requires
        v < 0x2000000000000,
    ensures
        ((v << 6) & 0xFDFBF7EFDFBFu64) < 0x2000000000000,
        forall|p: u64|
            p < 49 ==> #[trigger] get_bit((v << 6) & 0xFDFBF7EFDFBFu64, p) == (p % 7 != 6 && p
                >= 7 && get_bit(v, (p - 6) as u64)),
{
}

impl Board {
    #[verifier::type_invariant]
    spec fn type_inv(self) -> bool {
        self.0 < 0x2000000000000
    }

    /// Wrap a raw 49-bit word. Words with any of bits 49..64 set are a caller
    /// contract violation, so construction requires the bound.
    pub fn new(value: u64) -> (r: Board)
        requires
            value < 0x2000000000000,
        ensures
            r@ == bits_set(value),
    {
        Board(value)
    }

    /// The raw word: bit `p` is set exactly for the cells of the board, and
    /// bits 49..64 are zero.
    pub fn to_u64(&self) -> (r: u64)
        ensures
            r < 0x2000000000000,
            bits_set(r) == self@,
    {
        proof {
            use_type_invariant(&*self);
        }
        self.0
    }

    /// The board holding exactly `position`.
    pub fn singleton(position: Position) -> (r: Board)
        ensures
            r@ == Set::<int>::empty().insert(position@),
    {
        proof {
            use_type_invariant(position);
        }
        let w: u64 = 1u64 << position.0;
        proof {
            lemma_singleton_bits(position.0);
            assert(bits_set(w) =~= Set::<int>::empty().insert(position@));
        }
        Board(w)
    }

    /// Membership test.
    pub fn get(&self, position: Position) -> (r: bool)
        ensures
            r == self@.contains(position@),
    {
        proof {
            use_type_invariant(&*self);
            use_type_invariant(position);
        }
        let r = (self.0 >> position.0) & 1 != 0;
        proof {
            let (v, i) = (self.0, position.0);
            assert(((v >> i) & 1 != 0) == get_bit(v, i)) by (bit_vector);
        }
        r
    }

    /// Set union.
    pub fn union(&self, other: Board) -> (r: Board)
        ensures
            r@ == self@.union(other@),
    {
        proof {
            use_type_invariant(&*self);
            use_type_invariant(other);
        }
        let w = self.0 | other.0;
        proof {
            lemma_or_bits(self.0, other.0);
            assert(bits_set(w) =~= bits_set(self.0).union(bits_set(other.0)));
        }
        Board(w)
    }

    /// Set intersection.
    pub fn intersect(&self, other: Board) -> (r: Board)
        ensures
            r@ == self@.intersect(other@),
    {
        proof {
            use_type_invariant(&*self);
            use_type_invariant(other);
        }
        let w = self.0 & other.0;
        proof {
            lemma_and_bits(self.0, other.0);
            assert(bits_set(w) =~= bits_set(self.0).intersect(bits_set(other.0)));
        }
        Board(w)
    }

    /// Complement within the 49-cell universe; the unused high bits of the
    /// word stay zero.
    pub fn complement(&self) -> (r: Board)
        ensures
            r@ == grid_cells().difference(self@),
    {
        proof {
            use_type_invariant(&*self);
        }
        let w = self.0 ^ 0x1FFFFFFFFFFFF;
        proof {
            lemma_xor_full_bits(self.0);
            assert(bits_set(w) =~= grid_cells().difference(bits_set(self.0)));
        }
        Board(w)
    }

    /// Whether no cell is set.
    pub fn is_empty(&self) -> (r: bool)
        ensures
            r == self@.is_empty(),
    {
        proof {
            use_type_invariant(&*self);
        }
        let r = self.0 == 0;
        proof {
            if r {
                lemma_zero_bits();
                assert(self@ =~= Set::<int>::empty());
            } else {
                lemma_nonzero_has_bit(self.0);
                let p = choose|p: int| valid_cell(p) && get_bit(self.0, p as u64);
                assert(self@.contains(p));
            }
        }
        r
    }

    /// Shift every stone one column eastward; stones in the last column drop
    /// out instead of wrapping into the next row.
    pub fn east(&self) -> (r: Board)
        ensures
            r@ == shifted(self@, 0, 1),
    {
        proof {
            use_type_invariant(&*self);
        }
        let w = (self.0 << 1) & 0x1FBF7EFDFBF7E;
        proof {
            lemma_east_bits(self.0);
            assert forall|p: int| 0 <= p < 49 implies #[trigger] get_bit(w, p as u64) == (in_grid(
                row_of(p) - 0,
                col_of(p) - 1,
            ) && get_bit(self.0, (p - 7 * 0 - 1) as u64)) by {
                lemma_cell_decomp(p);
            }
            lemma_view_shifted(self.0, w, 0, 1);
        }
        Board(w)
    }

    /// Shift every stone one column westward; stones in column 0 drop out.
    pub fn west(&self) -> (r: Board)
        ensures
            r@ == shifted(self@, 0, -1),
    {
        proof {
            use_type_invariant(&*self);
        }
        let w = (self.0 >> 1) & 0xFDFBF7EFDFBF;
        proof {
            lemma_west_bits(self.0);
            assert forall|p: int| 0 <= p < 49 implies #[trigger] get_bit(w, p as u64) == (in_grid(
                row_of(p) - 0,
                col_of(p) - (-1),
            ) && get_bit(self.0, (p - 7 * 0 - (-1)) as u64)) by {
                lemma_cell_decomp(p);
            }
            lemma_view_shifted(self.0, w, 0, -1);
        }
        Board(w)
    }

    /// Shift every stone one row northward (towards row 0); stones in row 0
    /// drop out.
    pub fn north(&self) -> (r: Board)
        ensures
            r@ == shifted(self@, -1, 0),
    {
        proof {
            use_type_invariant(&*self);
        }
        let w = (self.0 >> 7) & 0x1FFFFFFFFFFFF;
        proof {
            lemma_north_bits(self.0);
            assert forall|p: int| 0 <= p < 49 implies #[trigger] get_bit(w, p as u64) == (in_grid(
                row_of(p) - (-1),
                col_of(p) - 0,
            ) && get_bit(self.0, (p - 7 * (-1) - 0) as u64)) by {
                lemma_cell_decomp(p);
            }
            lemma_view_shifted(self.0, w, -1, 0);
        }
        Board(w)
    }

    /// Shift every stone one row southward (towards row 6); stones in row 6
    /// drop out.
    pub fn south(&self) -> (r: Board)
        ensures
            r@ == shifted(self@, 1, 0),
    {
        proof {
            use_type_invariant(&*self);
        }
        let w = (self.0 << 7) & 0x1FFFFFFFFFFFF;
        proof {
            lemma_south_bits(self.0);
            assert forall|p: int| 0 <= p < 49 implies #[trigger] get_bit(w, p as u64) == (in_grid(
                row_of(p) - 1,
                col_of(p) - 0,
            ) && get_bit(self.0, (p - 7 * 1 - 0) as u64)) by {
                lemma_cell_decomp(p);
            }
            lemma_view_shifted(self.0, w, 1, 0);
        }
        Board(w)
    }

    /// Shift one step north-east; stones in row 0 or column 6 drop out.
    pub fn northeast(&self) -> (r: Board)
        ensures
            r@ == shifted(self@, -1, 1),
    {
        proof {
            use_type_invariant(&*self);
        }
        let w = (self.0 >> 6) & 0x1FBF7EFDFBF7E;
        proof {
            lemma_northeast_bits(self.0);
            assert forall|p: int| 0 <= p < 49 implies #[trigger] get_bit(w, p as u64) == (in_grid(
                row_of(p) - (-1),
                col_of(p) - 1,
            ) && get_bit(self.0, (p - 7 * (-1) - 1) as u64)) by {
                lemma_cell_decomp(p);
            }
            lemma_view_shifted(self.0, w, -1, 1);
        }
        Board(w)
    }

    /// Shift one step north-west; stones in row 0 or column 0 drop out.
    pub fn northwest(&self) -> (r: Board)
        ensures
            r@ == shifted(self@, -1, -1),
    {
        proof {
            use_type_invariant(&*self);
        }
        let w = (self.0 >> 8) & 0xFDFBF7EFDFBF;
        proof {
            lemma_northwest_bits(self.0);
            assert forall|p: int| 0 <= p < 49 implies #[trigger] get_bit(w, p as u64) == (in_grid(
                row_of(p) - (-1),
                col_of(p) - (-1),
            ) && get_bit(self.0, (p - 7 * (-1) - (-1)) as u64)) by {
                lemma_cell_decomp(p);
            }
            lemma_view_shifted(self.0, w, -1, -1);
        }
        Board(w)
    }

    /// Shift one step south-east; stones in row 6 or column 6 drop out.
    pub fn southeast(&self) -> (r: Board)
        ensures
            r@ == shifted(self@, 1, 1),
    {
        proof {
            use_type_invariant(&*self);
        }
        let w = (self.0 << 8) & 0x1FBF7EFDFBF7E;
        proof {
            lemma_southeast_bits(self.0);
            assert forall|p: int| 0 <= p < 49 implies #[trigger] get_bit(w, p as u64) == (in_grid(
                row_of(p) - 1,
                col_of(p) - 1,
            ) && get_bit(self.0, (p - 7 * 1 - 1) as u64)) by {
                lemma_cell_decomp(p);
            }
            lemma_view_shifted(self.0, w, 1, 1);
        }
        Board(w)
    }

    /// Shift one step south-west; stones in row 6 or column 0 drop out.
    pub fn southwest(&self) -> (r: Board)
        ensures
            r@ == shifted(self@, 1, -1),
    {
        proof {
            use_type_invariant(&*self);
        }
        let w = (self.0 << 6) & 0xFDFBF7EFDFBF;
        proof {
            lemma_southwest_bits(self.0);
            assert forall|p: int| 0 <= p < 49 implies #[trigger] get_bit(w, p as u64) == (in_grid(
                row_of(p) - 1,
                col_of(p) - (-1),
            ) && get_bit(self.0, (p - 7 * 1 - (-1)) as u64)) by {
                lemma_cell_decomp(p);
            }
            lemma_view_shifted(self.0, w, 1, -1);
        }
        Board(w)
    }

    /// The Moore neighbourhood: the union of all eight directional shifts.
    pub fn neighbors(&self) -> (r: Board)
        ensures
            r@ == neighborhood(self@),
    {
        let r = self.east().union(self.north()).union(self.northeast()).union(
            self.northwest(),
        ).union(self.south()).union(self.southeast()).union(self.southwest()).union(self.west());
        proof {
            let s = self@;
            assert forall|p: int| #[trigger] r@.contains(p) implies neighborhood(s).contains(p) by {
                if shifted(s, 0, 1).contains(p) {
                    lemma_shifted_member_adjacent(s, 0, 1, p);
                } else if shifted(s, -1, 0).contains(p) {
                    lemma_shifted_member_adjacent(s, -1, 0, p);
                } else if shifted(s, -1, 1).contains(p) {
                    lemma_shifted_member_adjacent(s, -1, 1, p);
                } else if shifted(s, -1, -1).contains(p) {
                    lemma_shifted_member_adjacent(s, -1, -1, p);
                } else if shifted(s, 1, 0).contains(p) {
                    lemma_shifted_member_adjacent(s, 1, 0, p);
                } else if shifted(s, 1, 1).contains(p) {
                    lemma_shifted_member_adjacent(s, 1, 1, p);
                } else if shifted(s, 1, -1).contains(p) {
                    lemma_shifted_member_adjacent(s, 1, -1, p);
                } else {
                    lemma_shifted_member_adjacent(s, 0, -1, p);
                }
            }
            assert forall|p: int| #[trigger] neighborhood(s).contains(p) implies r@.contains(p) by {
                let q = choose|q: int| s.contains(q) && adjacent(p, q);
                lemma_adjacent_member_shifted(s, p, q);
            }
            assert(r@ =~= neighborhood(s));
        }
        r
    }
}

/// A member of a shifted set is adjacent to the source cell it came from.
proof fn lemma_shifted_member_adjacent(s: Set<int>, dr: int, dc: int, p: int)
    requires
        is_direction(dr, dc),
        shifted(s, dr, dc).contains(p),
    ensures
        neighborhood(s).contains(p),
{
    lemma_cell_decomp(p);
    lemma_cell_coords(row_of(p) - dr, col_of(p) - dc);
    let q = cell(row_of(p) - dr, col_of(p) - dc);
    assert(s.contains(q) && adjacent(p, q));
}

/// A cell adjacent to a member of `s` lies in the matching shifted set.
proof fn lemma_adjacent_member_shifted(s: Set<int>, p: int, q: int)
    requires
        s.contains(q),
        adjacent(p, q),
    ensures
        shifted(s, row_of(p) - row_of(q), col_of(p) - col_of(q)).contains(p),
{
    lemma_cell_decomp(p);
    lemma_cell_decomp(q);
}

} // verus!
