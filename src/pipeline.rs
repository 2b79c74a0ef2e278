//! The grid stages of the pipeline: taking one sample per pixel, and
//! transforming every row or every column of a square grid in place.
use vstd::prelude::*;
use crate::fft::{is_transform, transform};
use crate::strided::{StridedView, sampled};
use crate::validate::{is_pow2, check_side, ImageError};
use crate::remap::{
    quadrant_swap, center_rows, resample, coords_inside, cell, quadrant_source, centering_source,
};

verus! {

/// Row `i` of a grid of side `size`.
pub open spec fn row_view(size: int, i: int) -> StridedView {
    StridedView { offset: (i * size) as usize, stride: 1, len: size as usize }
}

/// Column `i` of a grid of side `size`.
pub open spec fn column_view(size: int, i: int) -> StridedView {
    StridedView { offset: i as usize, stride: size as usize, len: size as usize }
}

proof fn lemma_row_fits(size: int, i: int)
    requires
        0 <= i < size,
        size <= usize::MAX,
        size * size <= usize::MAX,
    ensures
        row_view(size, i).fits(size * size),
        row_view(size, i).offset == i * size,
        (i + 1) * size <= size * size,
{
    assert((i + 1) * size <= size * size && i * size + size - 1 < size * size && 0 <= i * size)
        by (nonlinear_arith)
        requires 0 <= i < size;
}

proof fn lemma_column_fits(size: int, i: int)
    requires
        0 <= i < size,
        size <= usize::MAX,
        size * size <= usize::MAX,
    ensures
        column_view(size, i).fits(size * size),
{
    assert(i + (size - 1) * size < size * size && (size - 1) * size >= 0) by (nonlinear_arith)
        requires 0 <= i < size;
}

/// Takes the first of every three bytes (the red sample of each RGB pixel).
pub fn first_channel(pixels: &Vec<u8>, size: usize) -> (r: Vec<u8>)
    requires
        pixels@.len() == 3 * size * size,
    ensures
        r@.len() == size * size,
        forall|k: int| 0 <= k < size * size ==> #[trigger] r@[k] == pixels@[3 * k],
{
    let plen = pixels.len();
    let total = plen / 3;
    assert(total == size * size && pixels@.len() == 3 * total) by (nonlinear_arith)
        requires pixels@.len() == 3 * size * size, total == pixels@.len() / 3;
    let mut r: Vec<u8> = Vec::new();
    let mut k: usize = 0;
    while k < total
        invariant
            k <= total,
            total == size * size,
            pixels@.len() == 3 * total,
            plen == pixels@.len(),
            r@.len() == k,
            forall|m: int| 0 <= m < k ==> #[trigger] r@[m] == pixels@[3 * m],
        decreases total - k,
    {
        r.push(pixels[3 * k]);
        k = k + 1;
    }
    r
}

/// Transforms every row of a grid of side `size` (a power of two).
pub fn row_transforms<T: Copy, F: Fn(T, T, usize, usize) -> (T, T)>(
    grid: &Vec<T>,
    size: usize,
    butterfly: &F,
) -> (r: Vec<T>)
    requires
        is_pow2(size as int),
        grid@.len() == size * size,
        forall|a: T, b: T, j: usize, n: usize| butterfly.requires((a, b, j, n)),
    ensures
        r@.len() == size * size,
        forall|i: int|
            0 <= i < size ==> #[trigger] is_transform(
                *butterfly,
                sampled(grid@, row_view(size as int, i)),
                sampled(r@, row_view(size as int, i)),
            ),
{
    let total = grid.len();
    let mut r: Vec<T> = Vec::new();
    let mut i: usize = 0;
    while i < size
        invariant
            i <= size,
            total == grid@.len(),
            is_pow2(size as int),
            grid@.len() == size * size,
            forall|a: T, b: T, j: usize, n: usize| butterfly.requires((a, b, j, n)),
            r@.len() == i * size,
            forall|a: int|
                0 <= a < i ==> #[trigger] is_transform(
                    *butterfly,
                    sampled(grid@, row_view(size as int, a)),
                    sampled(r@, row_view(size as int, a)),
                ),
        decreases size - i,
    {
        proof {
            lemma_row_fits(size as int, i as int);
        }
        let view = StridedView { offset: i * size, stride: 1, len: size };
        let mut t = transform(grid, view, butterfly);
        let ghost old_r = r@;
        let ghost tv = t@;
        r.append(&mut t);
        proof {
            assert forall|a: int| 0 <= a < i implies sampled(r@, row_view(size as int, a))
                == sampled(old_r, row_view(size as int, a)) by {
                lemma_row_fits(size as int, a);
                assert(a * size + size <= i * size) by (nonlinear_arith)
                    requires a < i, size >= 0;
                assert forall|k: int| 0 <= k < size implies row_view(size as int, a).index(k)
                    < old_r.len() by {
                    assert(row_view(size as int, a).index(k) == a * size + k);
                }
                assert(sampled(r@, row_view(size as int, a)) =~= sampled(
                    old_r,
                    row_view(size as int, a),
                ));
            }
            assert(sampled(r@, row_view(size as int, i as int)) =~= tv);
            assert(r@.len() == (i + 1) * size) by (nonlinear_arith)
                requires r@.len() == i * size + size;
        }
        i = i + 1;
    }
    r
}

/// Transforms every column of a grid of side `size` (a power of two), each
/// read in place through a view of stride `size`; column `i`'s result stands
/// in column `i` of the output.
pub fn column_transforms<T: Copy, F: Fn(T, T, usize, usize) -> (T, T)>(
    grid: &Vec<T>,
    size: usize,
    butterfly: &F,
) -> (r: Vec<T>)
    requires
        is_pow2(size as int),
        grid@.len() == size * size,
        forall|a: T, b: T, j: usize, n: usize| butterfly.requires((a, b, j, n)),
    ensures
        r@.len() == size * size,
        forall|i: int|
            0 <= i < size ==> #[trigger] is_transform(
                *butterfly,
                sampled(grid@, column_view(size as int, i)),
                sampled(r@, column_view(size as int, i)),
            ),
{
    let total = grid.len();
    let mut cols: Vec<Vec<T>> = Vec::new();
    let mut i: usize = 0;
    while i < size
        invariant
            i <= size,
            total == grid@.len(),
            is_pow2(size as int),
            grid@.len() == size * size,
            forall|a: T, b: T, j: usize, n: usize| butterfly.requires((a, b, j, n)),
            cols@.len() == i,
            forall|a: int|
                0 <= a < i ==> (#[trigger] cols@[a])@.len() == size && is_transform(
                    *butterfly,
                    sampled(grid@, column_view(size as int, a)),
                    cols@[a]@,
                ),
        decreases size - i,
    {
        proof {
            lemma_column_fits(size as int, i as int);
        }
        let view = StridedView { offset: i, stride: size, len: size };
        let t = transform(grid, view, butterfly);
        cols.push(t);
        i = i + 1;
    }
    let mut r: Vec<T> = Vec::new();
    let mut k: usize = 0;
    while k < total
        invariant
            k <= total,
            total == size * size,
            cols@.len() == size,
            forall|a: int| 0 <= a < size ==> (#[trigger] cols@[a])@.len() == size,
            r@.len() == k,
            forall|m: int|
                0 <= m < k ==> #[trigger] r@[m] == cols@[m % (size as int)]@[m / (size as int)],
        decreases total - k,
    {
        proof {
            crate::remap::lemma_row_col(size as int, k as int);
        }
        let v = cols[k % size][k / size];
        r.push(v);
        k = k + 1;
    }
    proof {
        assert forall|a: int| 0 <= a < size implies sampled(r@, column_view(size as int, a))
            == cols@[a]@ by {
            assert forall|j: int| 0 <= j < size implies #[trigger] r@[a + j * size] == cols@[a]@[j] by {
                lemma_column_fits(size as int, a);
                crate::strided::lemma_index_below(column_view(size as int, a), j, size * size);
                vstd::arithmetic::div_mod::lemma_fundamental_div_mod_converse(
                    a + j * size,
                    size as int,
                    j,
                    a,
                );
            }
            assert(sampled(r@, column_view(size as int, a)) =~= cols@[a]@);
        }
    }
    r
}

/// The six grids of one run, in the order they are made.
pub struct Stages<T> {
    /// Every row transformed.
    pub rows: Vec<T>,
    /// Every column of `rows` transformed: the 2-D spectrum.
    pub spectrum: Vec<T>,
    /// The spectrum with its quadrants swapped, zero frequency in the centre.
    pub centered: Vec<T>,
    /// The centred spectrum sampled along lines through its centre.
    pub resampled: Vec<T>,
    /// Each row of `resampled` with its halves swapped.
    pub recentered: Vec<T>,
    /// Every row of `recentered` transformed back.
    pub sinogram: Vec<T>,
}

/// What each stage of a run holds, given the one before it.
pub open spec fn stages_chain<T, F, G>(
    grid: Seq<T>,
    size: int,
    forward: F,
    inverse: G,
    coords: Seq<(usize, usize)>,
    st: Stages<T>,
) -> bool where F: Fn(T, T, usize, usize) -> (T, T), G: Fn(T, T, usize, usize) -> (T, T) {
    &&& st.rows@.len() == size * size
    &&& st.spectrum@.len() == size * size
    &&& st.centered@.len() == size * size
    &&& st.resampled@.len() == size * size
    &&& st.recentered@.len() == size * size
    &&& st.sinogram@.len() == size * size
    &&& forall|i: int|
        0 <= i < size ==> #[trigger] is_transform(
            forward,
            sampled(grid, row_view(size, i)),
            sampled(st.rows@, row_view(size, i)),
        )
    &&& forall|i: int|
        0 <= i < size ==> #[trigger] is_transform(
            forward,
            sampled(st.rows@, column_view(size, i)),
            sampled(st.spectrum@, column_view(size, i)),
        )
    &&& forall|k: int|
        0 <= k < size * size ==> #[trigger] st.centered@[k] == st.spectrum@[quadrant_source(size, k)]
    &&& forall|k: int|
        0 <= k < size * size ==> #[trigger] st.resampled@[k] == st.centered@[cell(
            size,
            coords[k].0 as int,
            coords[k].1 as int,
        )]
    &&& forall|k: int|
        0 <= k < size * size ==> #[trigger] st.recentered@[k]
            == st.resampled@[centering_source(size, k)]
    &&& forall|i: int|
        0 <= i < size ==> #[trigger] is_transform(
            inverse,
            sampled(st.recentered@, row_view(size, i)),
            sampled(st.sinogram@, row_view(size, i)),
        )
}

/// Runs the six stages on a grid of side `size`: rows, columns, quadrant
/// swap, resampling at `coords`, row centering, inverse rows. The side is
/// checked before any transform starts.
pub fn run_stages<T: Copy, F: Fn(T, T, usize, usize) -> (T, T), G: Fn(T, T, usize, usize) -> (T, T)>(
    grid: &Vec<T>,
    size: usize,
    forward: &F,
    inverse: &G,
    coords: &Vec<(usize, usize)>,
) -> (r: Result<Stages<T>, ImageError>)
    requires
        forall|a: T, b: T, j: usize, n: usize| forward.requires((a, b, j, n)),
        forall|a: T, b: T, j: usize, n: usize| inverse.requires((a, b, j, n)),
    ensures
        !is_pow2(size as int) ==> r == Err::<Stages<T>, ImageError>(ImageError::NotPowerOfTwo),
        is_pow2(size as int) && grid@.len() != size * size ==> r == Err::<Stages<T>, ImageError>(
            ImageError::WrongGridLength,
        ),
        is_pow2(size as int) && grid@.len() == size * size && !(coords@.len() == size * size
            && coords_inside(size as int, size * size, coords@)) ==> r == Err::<
            Stages<T>,
            ImageError,
        >(ImageError::SampleOutsideGrid),
        r matches Ok(st) ==> stages_chain(grid@, size as int, *forward, *inverse, coords@, st),
        r is Ok <==> is_pow2(size as int) && grid@.len() == size * size && coords@.len() == size
            * size && coords_inside(size as int, size * size, coords@),
{
    match check_side(size) {
        Ok(()) => {},
        Err(e) => return Err(e),
    }
    let total = grid.len();
    if total / size != size || total % size != 0 {
        proof {
            if grid@.len() == size * size {
                vstd::arithmetic::div_mod::lemma_fundamental_div_mod_converse(
                    total as int,
                    size as int,
                    size as int,
                    0,
                );
            }
        }
        return Err(ImageError::WrongGridLength);
    }
    proof {
        vstd::arithmetic::div_mod::lemma_fundamental_div_mod(total as int, size as int);
        assert(size * size == size * (total / size));
    }
    let rows = row_transforms(grid, size, forward);
    let spectrum = column_transforms(&rows, size, forward);
    let centered = quadrant_swap(&spectrum, size);
    let resampled = match resample(&centered, size, coords) {
        Some(v) => v,
        None => return Err(ImageError::SampleOutsideGrid),
    };
    let recentered = center_rows(&resampled, size);
    let sinogram = row_transforms(&recentered, size, inverse);
    Ok(Stages { rows, spectrum, centered, resampled, recentered, sinogram })
}

} // verus!
