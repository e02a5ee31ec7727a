//! A coarse walk in the shape of a Hilbert curve: sixteen grid cells in four
//! blocks of four, each block a copy of the basic "U" of the curve, placed
//! and turned by the block's number.

use vstd::prelude::*;

verus! {

/// How far the upper and right blocks of the walk are shifted.
pub const ORDER: u32 = 3;

/// The basic "U": the corners of the unit square in curve order.
pub open spec fn base_corner(k: int) -> (int, int) {
    if k == 0 {
        (0, 0)
    } else if k == 1 {
        (0, 1)
    } else if k == 2 {
        (1, 1)
    } else {
        (1, 0)
    }
}

/// Corner `k` of block `q`: block 0 is the "U" mirrored in the diagonal,
/// block 1 is shifted up by `ORDER`, block 2 up and right by `ORDER`, and
/// block 3 is turned and shifted right by `ORDER`.
pub open spec fn block_cell(k: int, q: int) -> (int, int) {
    let (x, y) = base_corner(k);
    if q == 0 {
        (y, x)
    } else if q == 1 {
        (x, y + ORDER)
    } else if q == 2 {
        (x + ORDER, y + ORDER)
    } else {
        (1 - y + ORDER, 1 - x)
    }
}

/// The cell that step `i` of the walk visits: the two lowest bits of `i`
/// pick the corner, the next two the block.
pub open spec fn curve_cell(i: int) -> (int, int) {
    block_cell(i % 4, (i / 4) % 4)
}

/// The step at which the walk's first sixteen steps visit the cell `(x, y)`.
pub open spec fn curve_step(x: int, y: int) -> int {
    if x <= 1 && y <= 1 {
        if x == 0 && y == 0 {
            0
        } else if x == 1 && y == 0 {
            1
        } else if x == 1 && y == 1 {
            2
        } else {
            3
        }
    } else if x <= 1 {
        4int + if x == 0 && y == 3 {
            0int
        } else if x == 0 {
            1
        } else if y == 4 {
            2
        } else {
            3
        }
    } else if y >= 3 {
        8int + if x == 3 && y == 3 {
            0int
        } else if x == 3 {
            1
        } else if y == 4 {
            2
        } else {
            3
        }
    } else {
        12int + if x == 4 && y == 1 {
            0int
        } else if x == 3 && y == 1 {
            1
        } else if x == 3 {
            2
        } else {
            3
        }
    }
}

/// Grid distance between two cells.
pub open spec fn manhattan(a: (int, int), b: (int, int)) -> int {
    (if a.0 >= b.0 {
        a.0 - b.0
    } else {
        b.0 - a.0
    }) + (if a.1 >= b.1 {
        a.1 - b.1
    } else {
        b.1 - a.1
    })
}

/// The corners of the basic "U" of a Hilbert curve, ready to be placed.
#[allow(non_camel_case_types)]
pub struct hilbert {
    points: Vec<(i64, i64)>,
}

impl View for hilbert {
    type V = Seq<(i64, i64)>;

    /// The corners of the "U", in curve order.
    closed spec fn view(&self) -> Seq<(i64, i64)> {
        self.points@
    }
}

impl hilbert {
    /// The four corners, in curve order.
    #[verifier::type_invariant]
    spec fn holds_base_corners(self) -> bool {
        &&& self.points@.len() == 4
        &&& forall|k: int|
            0 <= k < 4 ==> self.points@[k].0 == base_corner(k).0 && self.points@[k].1
                == base_corner(k).1
    }

    /// Sets up the four corners of the basic "U".
    pub fn new() -> (h: hilbert)
        ensures
            h@ == seq![(0i64, 0i64), (0i64, 1i64), (1i64, 1i64), (1i64, 0i64)],
    {
        let mut points = Vec::new();
        points.push((0, 0));
        points.push((0, 1));
        points.push((1, 1));
        points.push((1, 0));

        hilbert { points }
    }

    /// The cell that step `i` of the walk visits.
    pub fn get(&self, i: usize) -> (v: (i64, i64))
        ensures
            v.0 == curve_cell(i as int).0,
            v.1 == curve_cell(i as int).1,
    {
        proof {
            use_type_invariant(self);
        }
        let k = i & 3;
        let q = (i >> 2) & 3;
        assert(i & 3 == i % 4 && (i & 3) < 4) by (bit_vector);
        assert((i >> 2) & 3 == (i / 4) % 4 && ((i >> 2) & 3) < 4) by (bit_vector);
        let (x, y) = self.points[k];
        assert(x == base_corner(k as int).0 && y == base_corner(k as int).1);
        let shift = ORDER as i64;
        if q == 0 {
            (y, x)
        } else if q == 1 {
            (x, y + shift)
        } else if q == 2 {
            (x + shift, y + shift)
        } else {
            (1 - y + shift, 1 - x)
        }
    }
}

/// The walk repeats itself every sixteen steps.
pub proof fn lemma_curve_period(i: int)
    requires
        0 <= i,
    ensures
        curve_cell(i + 16) == curve_cell(i),
        curve_cell(i) == curve_cell(i % 16),
{
    assert((i + 16) % 4 == i % 4);
    assert((i + 16) / 4 == i / 4 + 4);
    assert(((i + 16) / 4) % 4 == (i / 4) % 4);
    assert((i % 16) % 4 == i % 4);
    assert(((i % 16) / 4) % 4 == (i / 4) % 4);
}

/// Within a block, consecutive steps move to a neighbouring cell.
pub proof fn lemma_steps_within_block_are_unit(i: int)
    requires
        0 <= i,
        i % 4 != 3,
    ensures
        manhattan(curve_cell(i), curve_cell(i + 1)) == 1,
{
    assert((i + 1) % 4 == i % 4 + 1);
    assert((i + 1) / 4 == i / 4);
}

/// The first sixteen steps visit sixteen different cells: `curve_step`
/// recovers the step from the cell.
pub proof fn lemma_first_sixteen_cells_distinct(i: int, j: int)
    requires
        0 <= i < 16,
        0 <= j < 16,
        i != j,
    ensures
        curve_step(curve_cell(i).0, curve_cell(i).1) == i,
        curve_cell(i) != curve_cell(j),
{
    lemma_curve_step_inverts(i);
    lemma_curve_step_inverts(j);
}

/// The lower-left corner of the unit square that block `q` of the walk
/// covers: blocks sit at the four corners of the grid, `ORDER` apart.
pub open spec fn block_origin(q: int) -> (int, int) {
    if q == 0 {
        (0, 0)
    } else if q == 1 {
        (0, ORDER as int)
    } else if q == 2 {
        (ORDER as int, ORDER as int)
    } else {
        (ORDER as int, 0)
    }
}

/// Each block of four steps covers the four cells of one unit square, each
/// cell once: block 0 at the origin, block 1 above it, block 2 diagonally
/// opposite and block 3 to the right, `ORDER` cells apart. Consecutive
/// blocks are joined by a jump of `ORDER - 1` cells.
pub proof fn lemma_blocks_cover_unit_squares(q: int, k: int, l: int)
    requires
        0 <= q < 4,
        0 <= k < 4,
        0 <= l < 4,
    ensures
        block_origin(q).0 <= curve_cell(4 * q + k).0 <= block_origin(q).0 + 1,
        block_origin(q).1 <= curve_cell(4 * q + k).1 <= block_origin(q).1 + 1,
        k != l ==> curve_cell(4 * q + k) != curve_cell(4 * q + l),
        q < 3 ==> manhattan(curve_cell(4 * q + 3), curve_cell(4 * q + 4)) == ORDER - 1,
{
    lemma_curve_cell_values(4 * q + k);
    lemma_curve_cell_values(4 * q + l);
    lemma_curve_cell_values(4 * q + 3);
    if q < 3 {
        lemma_curve_cell_values(4 * q + 4);
    }
}

proof fn lemma_curve_cell_values(i: int)
    requires
        0 <= i < 16,
    ensures
        i == 0 || i == 1 || i == 2 || i == 3 || i == 4 || i == 5 || i == 6 || i == 7 || i == 8
            || i == 9 || i == 10 || i == 11 || i == 12 || i == 13 || i == 14 || i == 15,
{
}

proof fn lemma_curve_step_inverts(i: int)
    requires
        0 <= i < 16,
    ensures
        curve_step(curve_cell(i).0, curve_cell(i).1) == i,
{
    assert(i == 0 || i == 1 || i == 2 || i == 3 || i == 4 || i == 5 || i == 6 || i == 7 || i == 8
        || i == 9 || i == 10 || i == 11 || i == 12 || i == 13 || i == 14 || i == 15);
}

} // verus!
