//! Index maps over a square, row-major grid of side `size`, and the grid
//! remappings built on them: quadrant swap, row centering and resampling at
//! given coordinates (nearest neighbour, no interpolation).
use vstd::prelude::*;

verus! {

/// Flat position of row `y`, column `x`.
pub open spec fn cell(size: int, y: int, x: int) -> int {
    y * size + x
}

/// Moves the upper half of `0..size` down and the lower half up:
/// `k + size/2` below the middle, `k - size/2` from it on.
pub open spec fn half_swap(size: int, k: int) -> int {
    if k < size / 2 {
        k + size / 2
    } else {
        k - size / 2
    }
}

/// Source position of flat position `k` under the quadrant swap: both the
/// row and the column are half-swapped.
pub open spec fn quadrant_source(size: int, k: int) -> int {
    cell(size, half_swap(size, k / size), half_swap(size, k % size))
}

/// Source position of flat position `k` under row centering: the row stays,
/// the column is half-swapped.
pub open spec fn centering_source(size: int, k: int) -> int {
    cell(size, k / size, half_swap(size, k % size))
}

/// A cell inside the grid has a flat position inside it.
pub proof fn lemma_cell_inside(size: int, y: int, x: int)
    requires
        0 <= y < size,
        0 <= x < size,
    ensures
        0 <= cell(size, y, x) < size * size,
{
    assert(0 <= y * size + x < size * size) by (nonlinear_arith)
        requires 0 <= y < size, 0 <= x < size;
}

/// Flat position `k` lies in row `k / size` and column `k % size`.
pub proof fn lemma_row_col(size: int, k: int)
    requires
        0 <= size,
        0 <= k < size * size,
    ensures
        0 <= k / size < size,
        0 <= k % size < size,
        cell(size, k / size, k % size) == k,
{
    assert(size > 0) by (nonlinear_arith)
        requires 0 <= k < size * size, size >= 0;
    vstd::arithmetic::div_mod::lemma_fundamental_div_mod(k, size);
    let q = k / size;
    let m = k % size;
    assert(0 <= q < size) by (nonlinear_arith)
        requires k == size * q + m, 0 <= m < size, 0 <= k < size * size, size > 0;
    assert(q * size == size * q) by (nonlinear_arith);
}

/// The half swap keeps indices inside `0..size`.
pub fn half_swap_index(size: usize, k: usize) -> (r: usize)
    requires
        k < size,
    ensures
        r as int == half_swap(size as int, k as int),
        r < size,
{
    if k < size / 2 {
        k + size / 2
    } else {
        k - size / 2
    }
}

/// On a grid of even side, swapping twice gives
/// back every row and column index.
pub proof fn lemma_quadrant_swap_involution(size: int, i: int, j: int)
    requires
        size % 2 == 0,
        0 <= i < size,
        0 <= j < size,
    ensures
        half_swap(size, half_swap(size, i)) == i,
        half_swap(size, half_swap(size, j)) == j,
        0 <= half_swap(size, i) < size,
        0 <= half_swap(size, j) < size,
{
}

/// The quadrant swap's flat source map is its own inverse on a grid of even
/// side.
pub proof fn lemma_quadrant_source_involution(size: int, k: int)
    requires
        size % 2 == 0,
        0 <= size,
        0 <= k < size * size,
    ensures
        0 <= quadrant_source(size, k) < size * size,
        quadrant_source(size, quadrant_source(size, k)) == k,
{
    lemma_row_col(size, k);
    let i = k / size;
    let j = k % size;
    lemma_quadrant_swap_involution(size, i, j);
    let q = quadrant_source(size, k);
    lemma_cell_inside(size, half_swap(size, i), half_swap(size, j));
    vstd::arithmetic::div_mod::lemma_fundamental_div_mod_converse(
        q,
        size,
        half_swap(size, i),
        half_swap(size, j),
    );
}

/// Swapping the quadrants of a grid of even side twice gives the grid back:
/// `once` is the swap of `grid`, `twice` the swap of `once`.
pub proof fn lemma_quadrant_swap_twice<T>(size: int, grid: Seq<T>, once: Seq<T>, twice: Seq<T>)
    requires
        size % 2 == 0,
        0 <= size,
        grid.len() == size * size,
        once.len() == size * size,
        twice.len() == size * size,
        forall|k: int| 0 <= k < size * size ==> #[trigger] once[k] == grid[quadrant_source(size, k)],
        forall|k: int| 0 <= k < size * size ==> #[trigger] twice[k] == once[quadrant_source(size, k)],
    ensures
        twice == grid,
{
    assert forall|k: int| 0 <= k < size * size implies #[trigger] twice[k] == grid[k] by {
        lemma_quadrant_source_involution(size, k);
    }
    assert(twice =~= grid);
}

/// Moves the zero-frequency corner of a spectrum to the centre: the result
/// at row `i`, column `j` is the input at the half-swapped row and column.
pub fn quadrant_swap<T: Copy>(grid: &Vec<T>, size: usize) -> (r: Vec<T>)
    requires
        grid@.len() == size * size,
    ensures
        r@.len() == size * size,
        forall|k: int|
            0 <= k < size * size ==> #[trigger] r@[k] == grid@[quadrant_source(size as int, k)],
{
    let total = grid.len();
    let mut r: Vec<T> = Vec::new();
    let mut k: usize = 0;
    while k < total
        invariant
            k <= total,
            total == size * size,
            grid@.len() == total,
            r@.len() == k,
            forall|m: int| 0 <= m < k ==> #[trigger] r@[m] == grid@[quadrant_source(size as int, m)],
        decreases total - k,
    {
        proof {
            lemma_row_col(size as int, k as int);
        }
        let y = half_swap_index(size, k / size);
        let x = half_swap_index(size, k % size);
        proof {
            lemma_cell_inside(size as int, y as int, x as int);
        }
        r.push(grid[y * size + x]);
        k = k + 1;
    }
    r
}

/// Re-centres each row by swapping its two halves: the result at row `i`,
/// column `j` is the input at row `i`, the half-swapped column.
pub fn center_rows<T: Copy>(grid: &Vec<T>, size: usize) -> (r: Vec<T>)
    requires
        grid@.len() == size * size,
    ensures
        r@.len() == size * size,
        forall|k: int|
            0 <= k < size * size ==> #[trigger] r@[k] == grid@[centering_source(size as int, k)],
{
    let total = grid.len();
    let mut r: Vec<T> = Vec::new();
    let mut k: usize = 0;
    while k < total
        invariant
            k <= total,
            total == size * size,
            grid@.len() == total,
            r@.len() == k,
            forall|m: int|
                0 <= m < k ==> #[trigger] r@[m] == grid@[centering_source(size as int, m)],
        decreases total - k,
    {
        proof {
            lemma_row_col(size as int, k as int);
        }
        let y = k / size;
        let x = half_swap_index(size, k % size);
        proof {
            lemma_cell_inside(size as int, y as int, x as int);
        }
        r.push(grid[y * size + x]);
        k = k + 1;
    }
    r
}

/// Flat position of row `y`, column `x`, when it falls before `total`.
pub fn flat_position(size: usize, total: usize, y: usize, x: usize) -> (r: Option<usize>)
    requires
        total == size * size,
    ensures
        r is Some <==> cell(size as int, y as int, x as int) < total,
        r is Some ==> r->0 as int == cell(size as int, y as int, x as int),
{
    if y >= size {
        assert(y * size >= size * size) by (nonlinear_arith)
            requires y >= size;
        return None;
    }
    assert(y * size <= size * size) by (nonlinear_arith)
        requires y < size;
    let base = y * size;
    if x < total - base {
        Some(base + x)
    } else {
        None
    }
}

/// Every coordinate pair `(row, column)` names a cell before `total`.
pub open spec fn coords_inside(size: int, total: int, coords: Seq<(usize, usize)>) -> bool {
    forall|k: int| 0 <= k < coords.len() ==> #[trigger] cell(size, coords[k].0 as int, coords[k].1 as int) < total
}

/// Nearest-neighbour resampling: the result's `k`-th element is the grid's
/// element at the `k`-th coordinate pair `(row, column)`. `None` when the
/// coordinates do not cover the grid or one of them lies past its end.
pub fn resample<T: Copy>(grid: &Vec<T>, size: usize, coords: &Vec<(usize, usize)>) -> (r: Option<Vec<T>>)
    requires
        grid@.len() == size * size,
    ensures
        r is Some <==> coords@.len() == grid@.len() && coords_inside(size as int, grid@.len() as int, coords@),
        r matches Some(v) ==> v@.len() == coords@.len() && forall|k: int| 0 <= k < coords@.len() ==> #[trigger] v@[k] == grid@[cell(size as int, coords@[k].0 as int, coords@[k].1 as int)],
{
    let total = grid.len();
    if coords.len() != total {
        return None;
    }
    let mut r: Vec<T> = Vec::new();
    let mut k: usize = 0;
    while k < total
        invariant
            k <= total,
            total == size * size,
            grid@.len() == total,
            coords@.len() == total,
            r@.len() == k,
            forall|m: int| 0 <= m < k ==> #[trigger] cell(size as int, coords@[m].0 as int, coords@[m].1 as int) < total,
            forall|m: int| 0 <= m < k ==> #[trigger] r@[m] == grid@[cell(size as int, coords@[m].0 as int, coords@[m].1 as int)],
        decreases total - k,
    {
        let (y, x) = coords[k];
        match flat_position(size, total, y, x) {
            Some(p) => r.push(grid[p]),
            None => return None,
        }
        k = k + 1;
    }
    Some(r)
}

} // verus!
