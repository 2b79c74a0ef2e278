//! Recursive radix-2 decimation-in-time transform over a strided view.
//!
//! The recursion and all index work live here; the arithmetic of one
//! butterfly (twiddle factor, complex product, sum and difference) is handed
//! in as a closure `butterfly(lower, upper, j, n) -> (new_lower, new_upper)`,
//! which makes the same engine serve the forward and the inverse transform.
use vstd::prelude::*;
use crate::strided::{StridedView, sampled, evens, odds, lemma_halves};
use crate::validate::is_pow2;

verus! {

/// `r` is what the radix-2 decimation-in-time recursion makes of `s` with
/// the butterfly `f`: a single element stays as it is; otherwise the halves
/// are transformed from the even and the odd positions of `s`, and for each
/// `j < n/2` the butterfly turns their `j`-th elements into `r[j]` and
/// `r[j + n/2]`.
pub open spec fn is_transform<T, F: Fn(T, T, usize, usize) -> (T, T)>(
    f: F,
    s: Seq<T>,
    r: Seq<T>,
) -> bool
    decreases s.len(),
{
    if s.len() <= 1 {
        r == s
    } else {
        let h = s.len() / 2;
        &&& r.len() == s.len()
        &&& exists|e: Seq<T>, o: Seq<T>|
            #![trigger combined(f, e, o, r, s.len() as int)]
            is_transform(f, evens(s), e) && is_transform(f, odds(s), o) && combined(
                f,
                e,
                o,
                r,
                s.len() as int,
            )
    }
}

/// Each pair `(r[j], r[j + h])` is what the butterfly gives for `(e[j], o[j])`
/// at position `j` of a transform of length `n`, where `h = n / 2`.
pub open spec fn combined<T, F: Fn(T, T, usize, usize) -> (T, T)>(
    f: F,
    e: Seq<T>,
    o: Seq<T>,
    r: Seq<T>,
    n: int,
) -> bool {
    let h = n / 2;
    forall|j: int|
        #![trigger e[j]]
        0 <= j < h ==> f.ensures((e[j], o[j], j as usize, n as usize), (r[j], r[j + h]))
}

/// Transforms the `view.len` elements of `data` that `view` selects, without
/// copying them out first. `view.len` must be a power of two.
pub fn transform<T: Copy, F: Fn(T, T, usize, usize) -> (T, T)>(
    data: &Vec<T>,
    view: StridedView,
    butterfly: &F,
) -> (r: Vec<T>)
    requires
        is_pow2(view.len as int),
        view.fits(data@.len() as int),
        forall|a: T, b: T, j: usize, n: usize| butterfly.requires((a, b, j, n)),
    ensures
        r@.len() == view.len,
        is_transform(*butterfly, sampled(data@, view), r@),
    decreases view.len,
{
    let n = view.len;
    if n == 1 {
        let p = view.position(0, data.len());
        let mut r: Vec<T> = Vec::new();
        r.push(data[p]);
        assert(r@ =~= sampled(data@, view));
        return r;
    }
    let ghost s = sampled(data@, view);
    let half = n / 2;
    let ev = view.even(data.len());
    let od = view.odd(data.len());
    proof {
        lemma_halves(data@, view, ev, od);
    }
    let mut buf = transform(data, ev, butterfly);
    let upper = transform(data, od, butterfly);
    let ghost e = buf@;
    let ghost o = upper@;
    let mut k: usize = 0;
    while k < half
        invariant
            0 <= k <= half,
            half == n / 2,
            n >= 2,
            buf@.len() == half + k,
            e.len() == half,
            forall|i: int| 0 <= i < half ==> buf@[i] == e[i],
            forall|i: int| 0 <= i < k ==> buf@[half + i] == o[i],
            o.len() == half,
            upper@ == o,
        decreases half - k,
    {
        buf.push(upper[k]);
        k = k + 1;
    }
    let mut j: usize = 0;
    while j < half
        invariant
            0 <= j <= half,
            half == n / 2,
            n >= 2,
            buf@.len() == n,
            e.len() == half,
            o.len() == half,
            forall|a: T, b: T, i: usize, m: usize| butterfly.requires((a, b, i, m)),
            forall|i: int| j <= i < half ==> buf@[i] == e[i] && buf@[i + half] == o[i],
            forall|i: int|
                #![trigger e[i]]
                0 <= i < j ==> (*butterfly).ensures(
                    (e[i], o[i], i as usize, n),
                    (buf@[i], buf@[i + half]),
                ),
        decreases half - j,
    {
        let lower = buf[j];
        let up = buf[j + half];
        let (x, y) = butterfly(lower, up, j, n);
        buf.set(j, x);
        buf.set(j + half, y);
        j = j + 1;
    }
    proof {
        assert(s.len() == n);
        assert(combined(*butterfly, e, o, buf@, s.len() as int));
    }
    buf
}

/// A contiguous copy of the elements that `view`
/// selects has exactly the same transforms as the view itself, read in place.
pub proof fn lemma_strided_equivalence<T, F: Fn(T, T, usize, usize) -> (T, T)>(
    f: F,
    data: Seq<T>,
    view: StridedView,
    copy: Seq<T>,
    r: Seq<T>,
)
    requires
        view.fits(data.len() as int),
        copy.len() == view.len,
        forall|k: int| 0 <= k < view.len ==> copy[k] == data[view.index(k)],
    ensures
        is_transform(f, sampled(copy, StridedView { offset: 0, stride: 1, len: view.len }), r)
            <==> is_transform(f, sampled(data, view), r),
{
    assert(sampled(copy, StridedView { offset: 0, stride: 1, len: view.len }) =~= sampled(
        data,
        view,
    ));
}

} // verus!
