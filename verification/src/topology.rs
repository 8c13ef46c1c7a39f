//! Neighbor topology of the particle grid.
//!
//! Particles sit on an `R x R` grid; particle `i` lives at column `i % R`
//! and row `i / R`. Each particle has up to four axis-aligned neighbors,
//! one per slot (left, right, up, down); a slot with no neighbor at a grid
//! edge holds the sentinel, a value no particle index can ever reach.

use vstd::prelude::*;
use vstd::arithmetic::div_mod::{
    lemma_fundamental_div_mod, lemma_fundamental_div_mod_converse, lemma_mod_bound,
    lemma_div_pos_is_pos,
};
use vstd::arithmetic::mul::{lemma_mul_inequality, lemma_mul_upper_bound, lemma_mul_is_commutative};

verus! {

/// The sentinel marking an absent neighbor. It exceeds every possible
/// particle index, since row sizes are bounded by `u16::MAX`.
pub const NO_NEIGHBOR: u32 = 0xFFFF_FFFF;

/// The largest supported row size: indices of a full grid, and their four
/// neighbor candidates, then still fit `u32` strictly below the sentinel.
pub const MAX_ROW_SIZE: u32 = 65_535;

/// Which neighbor the slot `k` of particle `i` holds on an `r`-row grid:
/// slot 0 is the left neighbor, 1 the right, 2 the one a row up, 3 the one
/// a row down, and absent neighbors at grid edges are the sentinel.
pub open spec fn nbr_spec(i: int, r: int, k: int) -> int {
    let x = i % r;
    let z = i / r;
    if k == 0 {
        if x > 0 {
            i - 1
        } else {
            NO_NEIGHBOR as int
        }
    } else if k == 1 {
        if x < r - 1 {
            i + 1
        } else {
            NO_NEIGHBOR as int
        }
    } else if k == 2 {
        if z > 0 {
            i - r
        } else {
            NO_NEIGHBOR as int
        }
    } else {
        if z < r - 1 {
            i + r
        } else {
            NO_NEIGHBOR as int
        }
    }
}

/// The slot in which a neighbor sees the particle back: left pairs with
/// right, up pairs with down.
pub open spec fn mirror_slot(k: int) -> int {
    if k == 0 {
        1
    } else if k == 1 {
        0
    } else if k == 2 {
        3
    } else {
        2
    }
}

/// How many of the four slots hold a real neighbor.
pub open spec fn live_neighbor_count(i: int, r: int) -> int {
    (if nbr_spec(i, r, 0) == NO_NEIGHBOR as int {
        0int
    } else {
        1int
    }) + (if nbr_spec(i, r, 1) == NO_NEIGHBOR as int {
        0int
    } else {
        1int
    }) + (if nbr_spec(i, r, 2) == NO_NEIGHBOR as int {
        0int
    } else {
        1int
    }) + (if nbr_spec(i, r, 3) == NO_NEIGHBOR as int {
        0int
    } else {
        1int
    })
}

/// Grid coordinates of a valid index: both lie in `[0, r)` and recompose
/// to the index.
pub proof fn lemma_grid(i: int, r: int)
    requires
        r >= 1,
        0 <= i < r * r,
    ensures
        0 <= i % r < r,
        0 <= i / r < r,
        i == (i / r) * r + i % r,
{
    lemma_fundamental_div_mod(i, r);
    lemma_mod_bound(i, r);
    lemma_div_pos_is_pos(i, r);
    lemma_mul_is_commutative(r, i / r);
    if i / r >= r {
        lemma_mul_inequality(r, i / r, r);
        lemma_mul_is_commutative(r, i / r);
    }
}

/// Neighbor references are symmetric: a particle's live neighbor in slot
/// `k` lies on the grid and names the particle back in the mirrored slot.
pub proof fn lemma_neighbor_symmetry(r: int, i: int, k: int)
    requires
        1 <= r <= MAX_ROW_SIZE as int,
        0 <= i < r * r,
        0 <= k < 4,
        nbr_spec(i, r, k) != NO_NEIGHBOR as int,
    ensures
        0 <= nbr_spec(i, r, k) < r * r,
        nbr_spec(nbr_spec(i, r, k), r, mirror_slot(k)) == i,
{
    lemma_grid(i, r);
    let x = i % r;
    let z = i / r;
    lemma_mul_upper_bound(r, MAX_ROW_SIZE as int, r, MAX_ROW_SIZE as int);
    if k == 0 {
        let j = i - 1;
        lemma_fundamental_div_mod_converse(j, r, z, x - 1);
        lemma_mul_is_commutative(z, r);
    } else if k == 1 {
        let j = i + 1;
        lemma_fundamental_div_mod_converse(j, r, z, x + 1);
        lemma_mul_is_commutative(z, r);
        lemma_mul_inequality(z, r - 1, r);
        assert((r - 1) * r == r * r - r) by (nonlinear_arith);
    } else if k == 2 {
        let j = i - r;
        assert((z - 1) * r == z * r - r) by (nonlinear_arith);
        lemma_mul_is_commutative(z, r);
        lemma_fundamental_div_mod_converse(j, r, z - 1, x);
        lemma_mul_inequality(1, z, r);
    } else {
        let j = i + r;
        assert((z + 1) * r == z * r + r) by (nonlinear_arith);
        lemma_mul_is_commutative(z, r);
        lemma_fundamental_div_mod_converse(j, r, z + 1, x);
        lemma_mul_inequality(z + 1, r - 1, r);
        assert((r - 1) * r == r * r - r) by (nonlinear_arith);
    }
}

/// How many live neighbors a particle has, by its place on the grid: four
/// in the interior, one fewer for each grid edge it touches (three on an
/// edge, two in a corner).
pub proof fn lemma_neighbor_count(r: int, i: int)
    requires
        2 <= r <= MAX_ROW_SIZE as int,
        0 <= i < r * r,
    ensures
        live_neighbor_count(i, r) == 4 - (if i % r == 0 {
            1int
        } else {
            0int
        }) - (if i % r == r - 1 {
            1int
        } else {
            0int
        }) - (if i / r == 0 {
            1int
        } else {
            0int
        }) - (if i / r == r - 1 {
            1int
        } else {
            0int
        }),
{
    lemma_grid(i, r);
    lemma_mul_upper_bound(r, MAX_ROW_SIZE as int, r, MAX_ROW_SIZE as int);
}

/// Computes the four neighbor slots of the particle at `index` on a square
/// grid with `row_size` columns, with the sentinel in slots that have no
/// neighbor because the particle touches a grid edge.
pub fn calculate_neighbors(index: u32, row_size: u32) -> (r: [u32; 4])
    requires
        1 <= row_size <= MAX_ROW_SIZE,
        (index as int) < (row_size as int) * (row_size as int),
    ensures
        forall|k: int| 0 <= k < 4 ==> r@[k] as int == nbr_spec(index as int, row_size as int, k),
{
    proof {
        lemma_grid(index as int, row_size as int);
        lemma_mul_upper_bound(
            row_size as int,
            MAX_ROW_SIZE as int,
            row_size as int,
            MAX_ROW_SIZE as int,
        );
    }
    let x: u32 = index % row_size;
    let z: u32 = index / row_size;
    let n0: u32 = if x > 0 {
        index - 1
    } else {
        NO_NEIGHBOR
    };
    let n1: u32 = if x < row_size - 1 {
        index + 1
    } else {
        NO_NEIGHBOR
    };
    let n2: u32 = if z > 0 {
        proof {
            lemma_mul_inequality(1, z as int, row_size as int);
        }
        index - row_size
    } else {
        NO_NEIGHBOR
    };
    let n3: u32 = if z < row_size - 1 {
        index + row_size
    } else {
        NO_NEIGHBOR
    };
    [n0, n1, n2, n3]
}

} // verus!
