//! Rectangles inside raster-ordered buffers, and copying one into another.
use vstd::prelude::*;
use vstd::arithmetic::div_mod::{
    lemma_fundamental_div_mod,
    lemma_fundamental_div_mod_converse,
    lemma_mod_pos_bound,
};
use vstd::arithmetic::mul::lemma_mul_inequality;

verus! {

/// Whether buffer index `k` lies in the rectangle of `w` columns and `h` rows that starts
/// at index `off` of a buffer with row stride `stride`.
pub open spec fn in_rect(k: int, off: int, stride: int, w: int, h: int) -> bool {
    k >= off && (k - off) / stride < h && (k - off) % stride < w
}

/// Index in the source buffer (start `soff`, row stride `sstride`) of the element that
/// lands at index `k` of the rectangle at `off` with stride `stride`. A source stride of 0
/// repeats the source's first row on every row.
pub open spec fn rect_src(k: int, off: int, stride: int, soff: int, sstride: int) -> int {
    soff + ((k - off) / stride) * sstride + (k - off) % stride
}

/// Whether a rectangle of `w` columns and `h` rows at `off` with row stride `stride` lies
/// inside a buffer of length `len`.
pub open spec fn rect_fits(len: int, off: int, stride: int, w: int, h: int) -> bool {
    &&& 0 <= off
    &&& 0 < stride
    &&& 0 <= w <= stride
    &&& 0 <= h
    &&& (h == 0 || off + (h - 1) * stride + w <= len)
}

/// Whether the source rows read by such a copy lie inside a buffer of length `len`.
pub open spec fn src_fits(len: int, soff: int, sstride: int, w: int, h: int) -> bool {
    &&& 0 <= soff
    &&& 0 <= sstride
    &&& (h == 0 || soff + (h - 1) * sstride + w <= len)
}

/// `new` is `old` with the rectangle overwritten from `src`, and nothing else changed.
#[verifier::opaque]
pub open spec fn rect_copied<T>(
    new: Seq<T>,
    old: Seq<T>,
    src: Seq<T>,
    off: int,
    stride: int,
    soff: int,
    sstride: int,
    w: int,
    h: int,
) -> bool {
    &&& new.len() == old.len()
    &&& forall|k: int|
        0 <= k < new.len() ==> #[trigger] new[k] == (if in_rect(k, off, stride, w, h) {
            src[rect_src(k, off, stride, soff, sstride)]
        } else {
            old[k]
        })
}

/// Adding row `j` to the first `j` rows of a rectangle.
pub proof fn lemma_rect_add_row(k: int, off: int, stride: int, w: int, j: int)
    requires
        0 < stride,
        0 <= w <= stride,
        0 <= j,
    ensures
        in_rect(k, off, stride, w, j + 1) == (in_rect(k, off, stride, w, j) || (off + j * stride
            <= k < off + j * stride + w)),
        off + j * stride <= k < off + j * stride + w ==> {
            &&& (k - off) / stride == j
            &&& (k - off) % stride == k - off - j * stride
        },
{
    if off + j * stride <= k < off + j * stride + w {
        lemma_fundamental_div_mod_converse(k - off, stride, j, k - off - j * stride);
    }
    if k >= off {
        lemma_fundamental_div_mod(k - off, stride);
        lemma_mod_pos_bound(k - off, stride);
        let q = (k - off) / stride;
        let r = (k - off) % stride;
        if q == j && r < w {
            assert(k - off == j * stride + r) by (nonlinear_arith)
                requires
                    k - off == stride * q + r,
                    q == j,
            ;
        }
    }
}

/// Copies a rectangle of `w` columns and `h` rows from `src` (start `soff`, row stride
/// `sstride`) into `dst` (start `off`, row stride `stride`).
pub fn copy_rect<T: Copy>(
    dst: &mut Vec<T>,
    src: &Vec<T>,
    off: usize,
    stride: usize,
    soff: usize,
    sstride: usize,
    w: usize,
    h: usize,
)
    requires
        rect_fits(old(dst).len() as int, off as int, stride as int, w as int, h as int),
        src_fits(src.len() as int, soff as int, sstride as int, w as int, h as int),
    ensures
        final(dst).len() == old(dst).len(),
        rect_copied(
            final(dst)@,
            old(dst)@,
            src@,
            off as int,
            stride as int,
            soff as int,
            sstride as int,
            w as int,
            h as int,
        ),
{
    let ghost old_dst = dst@;
    let mut j: usize = 0;
    while j < h
        invariant
            0 <= j <= h,
            dst@.len() == old_dst.len(),
            dst.len() == old_dst.len(),
            rect_fits(old_dst.len() as int, off as int, stride as int, w as int, h as int),
            src_fits(src.len() as int, soff as int, sstride as int, w as int, h as int),
            forall|k: int|
                0 <= k < old_dst.len() ==> #[trigger] dst@[k] == (if in_rect(
                    k,
                    off as int,
                    stride as int,
                    w as int,
                    j as int,
                ) {
                    src@[rect_src(k, off as int, stride as int, soff as int, sstride as int)]
                } else {
                    old_dst[k]
                }),
        decreases h - j,
    {
        proof {
            lemma_mul_inequality(j as int, (h - 1) as int, stride as int);
            lemma_mul_inequality(j as int, (h - 1) as int, sstride as int);
            assert(off + j * stride + w <= old_dst.len());
            assert(soff + j * sstride + w <= src.len());
        }
        let drow = off + j * stride;
        let srow = soff + j * sstride;
        let mut i: usize = 0;
        while i < w
            invariant
                0 <= i <= w,
                j < h,
                0 < stride,
                w <= stride,
                drow == off + j * stride,
                srow == soff + j * sstride,
                drow + w <= old_dst.len(),
                srow + w <= src.len(),
                dst@.len() == old_dst.len(),
                dst.len() == old_dst.len(),
                forall|k: int|
                    0 <= k < old_dst.len() ==> #[trigger] dst@[k] == (if in_rect(
                        k,
                        off as int,
                        stride as int,
                        w as int,
                        j as int,
                    ) {
                        src@[rect_src(k, off as int, stride as int, soff as int, sstride as int)]
                    } else if drow <= k < drow + i {
                        src@[srow + (k - drow)]
                    } else {
                        old_dst[k]
                    }),
            decreases w - i,
        {
            proof {
                lemma_rect_add_row(
                    (drow + i) as int,
                    off as int,
                    stride as int,
                    w as int,
                    j as int,
                );
            }
            dst[drow + i] = src[srow + i];
            i += 1;
        }
        proof {
            assert forall|k: int| 0 <= k < old_dst.len() implies #[trigger] dst@[k] == (if in_rect(
                k,
                off as int,
                stride as int,
                w as int,
                (j + 1) as int,
            ) {
                src@[rect_src(k, off as int, stride as int, soff as int, sstride as int)]
            } else {
                old_dst[k]
            }) by {
                lemma_rect_add_row(k, off as int, stride as int, w as int, j as int);
            }
        }
        j += 1;
    }
    proof {
        reveal(rect_copied);
    }
}

} // verus!

verus! {

/// Sets every element of `v` to `x`.
pub fn fill<T: Copy>(v: &mut Vec<T>, x: T)
    ensures
        final(v).len() == old(v).len(),
        forall|k: int| 0 <= k < final(v).len() ==> #[trigger] final(v)@[k] == x,
{
    let n = v.len();
    let mut i: usize = 0;
    while i < n
        invariant
            0 <= i <= n,
            v.len() == n,
            n == old(v).len(),
            forall|k: int| 0 <= k < i ==> #[trigger] v@[k] == x,
        decreases n - i,
    {
        v[i] = x;
        i += 1;
    }
}

} // verus!

verus! {

/// Sets every element of the rectangle of `w` columns and `h` rows at `off` (row stride
/// `stride`) to `x`.
pub fn fill_rect<T: Copy>(dst: &mut Vec<T>, x: T, off: usize, stride: usize, w: usize, h: usize)
    requires
        rect_fits(old(dst).len() as int, off as int, stride as int, w as int, h as int),
    ensures
        final(dst).len() == old(dst).len(),
        forall|k: int|
            0 <= k < final(dst).len() ==> #[trigger] final(dst)@[k] == (if in_rect(
                k,
                off as int,
                stride as int,
                w as int,
                h as int,
            ) {
                x
            } else {
                old(dst)@[k]
            }),
{
    let mut row: Vec<T> = Vec::new();
    let mut i: usize = 0;
    while i < w
        invariant
            i <= w,
            row.len() == i,
            forall|k: int| 0 <= k < i ==> #[trigger] row@[k] == x,
        decreases w - i,
    {
        row.push(x);
        i += 1;
    }
    copy_rect(dst, &row, off, stride, 0, 0, w, h);
    proof {
        reveal(rect_copied);
        assert forall|k: int| 0 <= k < dst.len() && in_rect(k, off as int, stride as int, w as int, h as int)
            implies #[trigger] dst@[k] == x by {
            assert(rect_src(k, off as int, stride as int, 0, 0) == (k - off) % (stride as int));
        }
    }
}

} // verus!
