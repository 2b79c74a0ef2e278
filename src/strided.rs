//! A strided view `(offset, stride, len)` into a flat buffer: the elements at
//! `offset`, `offset + stride`, ..., `offset + (len - 1) * stride`.
use vstd::prelude::*;

verus! {

#[derive(Debug, Clone, Copy, PartialEq, Eq, Structural)]
pub struct StridedView {
    pub offset: usize,
    pub stride: usize,
    pub len: usize,
}

/// The elements of `data` that `v` selects, in order.
pub open spec fn sampled<T>(data: Seq<T>, v: StridedView) -> Seq<T> {
    Seq::new(v.len as nat, |k: int| data[v.index(k)])
}

/// The elements at even positions of `s`.
pub open spec fn evens<T>(s: Seq<T>) -> Seq<T> {
    Seq::new((s.len() / 2) as nat, |k: int| s[2 * k])
}

/// The elements at odd positions of `s`.
pub open spec fn odds<T>(s: Seq<T>) -> Seq<T> {
    Seq::new((s.len() / 2) as nat, |k: int| s[2 * k + 1])
}

impl StridedView {
    /// Position in the buffer of the `k`-th element of the view.
    pub open spec fn index(self, k: int) -> int {
        self.offset + k * self.stride
    }

    /// The view is non-empty and lies inside a buffer of `buf_len` elements.
    pub open spec fn fits(self, buf_len: int) -> bool {
        self.len >= 1 && self.index(self.len - 1) < buf_len
    }

    /// The contiguous view of `len` elements from the start.
    pub fn contiguous(len: usize) -> (r: StridedView)
        ensures
            r == (StridedView { offset: 0, stride: 1, len }),
    {
        StridedView { offset: 0, stride: 1, len }
    }

    /// Position in the buffer of the `k`-th element of the view.
    pub fn position(&self, k: usize, buf_len: usize) -> (r: usize)
        requires
            self.fits(buf_len as int),
            k < self.len,
        ensures
            r as int == self.index(k as int),
            r < buf_len,
    {
        proof {
            lemma_index_below(*self, k as int, buf_len as int);
        }
        self.offset + k * self.stride
    }

    /// The view of the elements at even positions of this one. A view of one
    /// element keeps its stride, which it never uses.
    pub fn even(&self, buf_len: usize) -> (r: StridedView)
        requires
            self.fits(buf_len as int),
            self.len >= 2,
        ensures
            r.offset == self.offset,
            r.len == self.len / 2,
            r.fits(buf_len as int),
            forall|k: int| 0 <= k < r.len ==> r.index(k) == self.index(2 * k),
    {
        let stride = self.doubled_stride(buf_len);
        let r = StridedView { offset: self.offset, stride, len: self.len / 2 };
        assert forall|k: int| 0 <= k < r.len implies r.index(k) == self.index(2 * k) by {
            if r.len >= 2 {
                assert(k * (2 * self.stride) == (2 * k) * self.stride) by (nonlinear_arith);
            }
        }
        proof {
            lemma_index_below(*self, 2 * (r.len - 1), buf_len as int);
        }
        r
    }

    /// The view of the elements at odd positions of this one.
    pub fn odd(&self, buf_len: usize) -> (r: StridedView)
        requires
            self.fits(buf_len as int),
            self.len >= 2,
        ensures
            r.len == self.len / 2,
            r.fits(buf_len as int),
            forall|k: int| 0 <= k < r.len ==> r.index(k) == self.index(2 * k + 1),
    {
        proof {
            lemma_index_below(*self, 1, buf_len as int);
        }
        let stride = self.doubled_stride(buf_len);
        let r = StridedView { offset: self.offset + self.stride, stride, len: self.len / 2 };
        assert forall|k: int| 0 <= k < r.len implies r.index(k) == self.index(2 * k + 1) by {
            if r.len >= 2 {
                assert(k * (2 * self.stride) + self.stride == (2 * k + 1) * self.stride)
                    by (nonlinear_arith);
            } else {
                assert(k == 0);
            }
        }
        proof {
            lemma_index_below(*self, 2 * (r.len - 1) + 1, buf_len as int);
        }
        r
    }

    /// Stride of a half view: twice this one, where the half has two or more
    /// elements.
    fn doubled_stride(&self, buf_len: usize) -> (r: usize)
        requires
            self.fits(buf_len as int),
            self.len >= 2,
        ensures
            self.len >= 4 ==> r == 2 * self.stride,
            self.len < 4 ==> r == self.stride,
    {
        if self.len >= 4 {
            proof {
                lemma_index_below(*self, 2, buf_len as int);
            }
            2 * self.stride
        } else {
            self.stride
        }
    }
}

/// Every element of a view that fits lies inside the buffer.
pub proof fn lemma_index_below(v: StridedView, k: int, buf_len: int)
    requires
        v.fits(buf_len),
        0 <= k < v.len,
    ensures
        0 <= v.index(k) < buf_len,
        v.index(k) <= v.index(v.len - 1),
{
    assert(k * v.stride <= (v.len - 1) * v.stride) by (nonlinear_arith)
        requires 0 <= k <= v.len - 1, v.stride >= 0;
    assert(k * v.stride >= 0) by (nonlinear_arith)
        requires 0 <= k, v.stride >= 0;
}

/// Sampling the even (odd) half view of `v` gives the even (odd) positions of
/// what `v` samples.
pub proof fn lemma_halves<T>(data: Seq<T>, v: StridedView, e: StridedView, o: StridedView)
    requires
        v.len >= 2,
        e.len == v.len / 2,
        o.len == v.len / 2,
        forall|k: int| 0 <= k < e.len ==> e.index(k) == v.index(2 * k),
        forall|k: int| 0 <= k < o.len ==> o.index(k) == v.index(2 * k + 1),
    ensures
        sampled(data, e) == evens(sampled(data, v)),
        sampled(data, o) == odds(sampled(data, v)),
{
    assert(sampled(data, e) =~= evens(sampled(data, v)));
    assert(sampled(data, o) =~= odds(sampled(data, v)));
}

} // verus!
