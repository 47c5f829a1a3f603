//! Coding-unit data store: every decided attribute of each minimal block of a tree
//! node, and the node's coefficients and reconstructed samples.
use vstd::prelude::*;
use crate::com::{
    chroma_active, evc_check_chroma, evc_check_luma, luma_active, EvcError, IntraPredDir, PredMode,
    SplitMode, TREE_CONS, TREE_TYPE, MAX_CU_LOG2, MIN_CU_LOG2, MV_D, N_C, NUM_BLOCK_SHAPE,
    REFP_NUM, U_C, V_C, Y_C,
};
use crate::mcu::MCU;
use vstd::arithmetic::mul::lemma_mul_inequality;
use vstd::arithmetic::div_mod::{lemma_fundamental_div_mod, lemma_mod_pos_bound};
use crate::rect::{copy_rect, fill, in_rect, rect_copied, rect_fits, rect_src, src_fits};

verus! {

/// A sample.
pub type pel = u16;

/// Number of entries of a split-decision table: one per (depth, block shape).
pub const NUM_SPLIT_ENTRIES: usize = 55;

/// `2` to the power `l`, for the log2 sizes the store works with.
pub open spec fn side(l: int) -> int {
    if l == 0 {
        1
    } else if l == 1 {
        2
    } else if l == 2 {
        4
    } else if l == 3 {
        8
    } else if l == 4 {
        16
    } else if l == 5 {
        32
    } else if l == 6 {
        64
    } else if l == 7 {
        128
    } else {
        0
    }
}

/// `2` to the power `l`.
pub fn side_of(l: u8) -> (r: usize)
    requires
        l <= 7,
    ensures
        r == side(l as int),
{
    match l {
        0 => 1,
        1 => 2,
        2 => 4,
        3 => 8,
        4 => 16,
        5 => 32,
        6 => 64,
        _ => 128,
    }
}

/// Sizes double with each log2 step.
pub proof fn lemma_side(l: int)
    requires
        1 <= l <= 7,
    ensures
        side(l) == 2 * side(l - 1),
        l >= 2 ==> side(l) == 4 * side(l - 2),
        side(l) >= 2,
{
}

/// Entry of a split-decision table for tree depth `k` and block shape `i`.
pub open spec fn split_entry(k: int, i: int) -> int {
    k * NUM_BLOCK_SHAPE + i
}

/// Block attributes of a source rectangle copied into the destination grid.
/// `dlw` is the log2 width of the destination node; (`x`, `y`) and (`lw`, `lh`) the
/// position and log2 size of the source. A source of the destination's own size is
/// copied row by row; a smaller one has its first row of blocks repeated on every row.
pub open spec fn blk_copied<T>(
    new: Seq<T>,
    old: Seq<T>,
    src: Seq<T>,
    dlw: int,
    x: int,
    y: int,
    lw: int,
    lh: int,
    same: bool,
) -> bool {
    rect_copied(
        new,
        old,
        src,
        (y / 4) * side(dlw - 2) + x / 4,
        side(dlw - 2),
        0,
        if same {
            side(lw - 2)
        } else {
            0
        },
        side(lw - 2),
        side(lh - 2),
    )
}

/// Samples of a source rectangle copied row by row into the destination plane.
pub open spec fn pel_copied<T>(
    new: Seq<T>,
    old: Seq<T>,
    src: Seq<T>,
    dlw: int,
    x: int,
    y: int,
    lw: int,
    lh: int,
) -> bool {
    rect_copied(new, old, src, y * side(dlw) + x, side(dlw), 0, side(lw), side(lw), side(lh))
}

/// A rectangle that stays inside a grid of `s` columns and `hh` rows fits in the grid.
pub proof fn lemma_rect_in_grid(s: int, hh: int, cx: int, cy: int, w: int, h: int)
    requires
        0 <= cx,
        0 <= cy,
        0 <= w,
        1 <= h,
        1 <= s,
        cx + w <= s,
        cy + h <= hh,
    ensures
        rect_fits(s * hh, cy * s + cx, s, w, h),
        src_fits(w * h, 0, w, w, h),
        src_fits(w * h, 0, 0, w, h),
{
    lemma_mul_inequality(cy + h - 1, hh - 1, s);
    assert(cy * s + (h - 1) * s == (cy + h - 1) * s) by (nonlinear_arith);
    assert((hh - 1) * s + s == s * hh) by (nonlinear_arith);
    assert((h - 1) * w + w <= w * h) by (nonlinear_arith);
    assert(w <= w * h) by (nonlinear_arith)
        requires
            0 <= w,
            1 <= h,
    ;
}

/// Per-node snapshot of the decisions, coefficients and reconstruction.
pub struct EvceCUData {
    /// Log2 width and height of the node.
    pub log2_cuw: u8,
    pub log2_cuh: u8,
    /// Split decisions, one table per (depth, block shape), see `split_entry`.
    pub split_mode: Vec<Vec<SplitMode>>,
    pub qp_y: Vec<u8>,
    pub qp_u: Vec<u8>,
    pub qp_v: Vec<u8>,
    pub pred_mode: Vec<PredMode>,
    pub pred_mode_chroma: Vec<PredMode>,
    /// Intra directions: luma, then chroma.
    pub ipm: Vec<Vec<IntraPredDir>>,
    pub skip_flag: Vec<bool>,
    pub refi: Vec<[i8; REFP_NUM]>,
    pub mvp_idx: Vec<[u8; REFP_NUM]>,
    pub mv: Vec<[[i16; MV_D]; REFP_NUM]>,
    pub mvd: Vec<[[i16; MV_D]; REFP_NUM]>,
    /// Non-zero coefficient flags, one vector per plane.
    pub nnz: Vec<Vec<bool>>,
    pub map_scu: Vec<MCU>,
    pub map_cu_mode: Vec<MCU>,
    pub depth: Vec<i8>,
    /// Coefficients, one vector per plane; chroma at half resolution.
    pub coef: Vec<Vec<i16>>,
    /// Reconstructed samples, one vector per plane; chroma at half resolution.
    pub reco: Vec<Vec<pel>>,
}

impl EvceCUData {
    /// Minimal blocks in a row of the node.
    pub open spec fn scu_w(&self) -> int {
        side(self.log2_cuw - 2)
    }

    /// Minimal blocks in a column of the node.
    pub open spec fn scu_h(&self) -> int {
        side(self.log2_cuh - 2)
    }

    /// Minimal blocks in the node.
    pub open spec fn scu_cnt(&self) -> int {
        self.scu_w() * self.scu_h()
    }

    /// Luma samples in the node.
    pub open spec fn luma_cnt(&self) -> int {
        side(self.log2_cuw as int) * side(self.log2_cuh as int)
    }

    /// Samples of one chroma plane in the node.
    pub open spec fn chroma_cnt(&self) -> int {
        side(self.log2_cuw - 1) * side(self.log2_cuh - 1)
    }

    /// Every array is sized for the node.
    pub open spec fn wf(&self) -> bool {
        let n = self.scu_cnt();
        &&& MIN_CU_LOG2 <= self.log2_cuw <= MAX_CU_LOG2
        &&& MIN_CU_LOG2 <= self.log2_cuh <= MAX_CU_LOG2
        &&& self.split_mode.len() == NUM_SPLIT_ENTRIES
        &&& (forall|e: int| 0 <= e < NUM_SPLIT_ENTRIES ==> #[trigger] self.split_mode@[e].len() == n)
        &&& self.qp_y.len() == n
        &&& self.qp_u.len() == n
        &&& self.qp_v.len() == n
        &&& self.pred_mode.len() == n
        &&& self.pred_mode_chroma.len() == n
        &&& self.ipm.len() == 2
        &&& self.ipm@[0].len() == n
        &&& self.ipm@[1].len() == n
        &&& self.skip_flag.len() == n
        &&& self.refi.len() == n
        &&& self.mvp_idx.len() == n
        &&& self.mv.len() == n
        &&& self.mvd.len() == n
        &&& self.nnz.len() == N_C
        &&& self.nnz@[0].len() == n
        &&& self.nnz@[1].len() == n
        &&& self.nnz@[2].len() == n
        &&& self.map_scu.len() == n
        &&& self.map_cu_mode.len() == n
        &&& self.depth.len() == n
        &&& self.coef.len() == N_C
        &&& self.coef@[0].len() == self.luma_cnt()
        &&& self.coef@[1].len() == self.chroma_cnt()
        &&& self.coef@[2].len() == self.chroma_cnt()
        &&& self.reco.len() == N_C
        &&& self.reco@[0].len() == self.luma_cnt()
        &&& self.reco@[1].len() == self.chroma_cnt()
        &&& self.reco@[2].len() == self.chroma_cnt()
    }

    /// Every value is at its default: QPs and depths 0, intra prediction in DC direction, no
    /// skip, zero motion, no coefficients, zero samples and empty status words.
    pub open spec fn fresh(&self) -> bool {
        &&& (forall|b: int| 0 <= b < self.scu_cnt() ==> {
            &&& #[trigger] self.qp_y@[b] == 0 && self.qp_u@[b] == 0 && self.qp_v@[b] == 0
            &&& self.pred_mode@[b] == PredMode::MODE_INTRA && self.pred_mode_chroma@[b] == PredMode::MODE_INTRA
            &&& self.ipm@[0]@[b] == IntraPredDir::IPD_DC_B && self.ipm@[1]@[b] == IntraPredDir::IPD_DC_B
            &&& !self.skip_flag@[b]
            &&& self.refi@[b] == [0i8; REFP_NUM] && self.mvp_idx@[b] == [0u8; REFP_NUM]
            &&& self.mv@[b] == [[0i16; MV_D]; REFP_NUM] && self.mvd@[b] == [[0i16; MV_D]; REFP_NUM]
            &&& !self.nnz@[0]@[b] && !self.nnz@[1]@[b] && !self.nnz@[2]@[b]
            &&& self.map_scu@[b] == MCU(0) && self.map_cu_mode@[b] == MCU(0)
            &&& self.depth@[b] == 0
        })
        &&& (forall|p: int, k: int| 0 <= p < N_C && 0 <= k < self.coef@[p].len() ==> #[trigger] self.coef@[p]@[k] == 0)
        &&& (forall|p: int, k: int| 0 <= p < N_C && 0 <= k < self.reco@[p].len() ==> #[trigger] self.reco@[p]@[k] == 0)
    }

    /// Whether every entry of the split-decision table is "no split".
    pub open spec fn split_all_none(&self) -> bool {
        forall|e: int, b: int|
            0 <= e < NUM_SPLIT_ENTRIES && 0 <= b < self.split_mode@[e].len()
                ==> #[trigger] self.split_mode@[e]@[b] == SplitMode::NO_SPLIT
    }
}

/// A copy of a whole buffer onto one of the same length is that buffer.
pub proof fn lemma_full_rect<T>(new: Seq<T>, old: Seq<T>, src: Seq<T>, s: int, h: int)
    requires
        rect_copied(new, old, src, 0, s, 0, s, s, h),
        1 <= s,
        0 <= h,
        new.len() == s * h,
        src.len() == s * h,
    ensures
        new == src,
{
    reveal(rect_copied);
    assert forall|k: int| 0 <= k < new.len() implies new[k] == src[k] by {
        lemma_fundamental_div_mod(k, s);
        lemma_mod_pos_bound(k, s);
        let q = k / s;
        if q >= h {
            assert(s * q >= s * h) by (nonlinear_arith)
                requires
                    q >= h,
                    s >= 1,
            ;
        }
        assert((k / s) * s == s * (k / s)) by (nonlinear_arith);
        assert(rect_src(k, 0, s, 0, s) == k);
    }
    assert(new =~= src);
}

/// `n` copies of `x`.
fn filled<T: Copy>(x: T, n: usize) -> (r: Vec<T>)
    ensures
        r.len() == n,
        forall|k: int| 0 <= k < n ==> #[trigger] r@[k] == x,
{
    let mut v: Vec<T> = Vec::new();
    let mut i: usize = 0;
    while i < n
        invariant
            i <= n,
            v.len() == i,
            forall|k: int| 0 <= k < i ==> #[trigger] v@[k] == x,
        decreases n - i,
    {
        v.push(x);
        i += 1;
    }
    v
}

/// Resets every split-decision table entry to "no split".
fn reset_split_table(t: &mut Vec<Vec<SplitMode>>)
    ensures
        final(t).len() == old(t).len(),
        forall|e: int| 0 <= e < final(t).len() ==> #[trigger] final(t)@[e].len() == old(t)@[e].len(),
        forall|e: int, b: int|
            0 <= e < final(t).len() && 0 <= b < final(t)@[e].len() ==> #[trigger] final(t)@[e]@[b]
                == SplitMode::NO_SPLIT,
{
    let n = t.len();
    let mut e: usize = 0;
    while e < n
        invariant
            0 <= e <= n,
            t.len() == n,
            n == old(t).len(),
            forall|f: int| 0 <= f < n ==> #[trigger] t@[f].len() == old(t)@[f].len(),
            forall|f: int, b: int|
                0 <= f < e && 0 <= b < t@[f].len() ==> #[trigger] t@[f]@[b] == SplitMode::NO_SPLIT,
        decreases n - e,
    {
        fill(&mut t[e], SplitMode::NO_SPLIT);
        e += 1;
    }
}

/// Copies the rectangle into the split-decision tables from entry `from` on.
fn copy_split_table(
    dst: &mut Vec<Vec<SplitMode>>,
    src: &Vec<Vec<SplitMode>>,
    from: usize,
    off: usize,
    stride: usize,
    sstride: usize,
    w: usize,
    h: usize,
)
    requires
        old(dst).len() == NUM_SPLIT_ENTRIES,
        src.len() == NUM_SPLIT_ENTRIES,
        forall|e: int|
            0 <= e < NUM_SPLIT_ENTRIES ==> rect_fits(
                #[trigger] old(dst)@[e].len() as int,
                off as int,
                stride as int,
                w as int,
                h as int,
            ),
        forall|e: int|
            0 <= e < NUM_SPLIT_ENTRIES ==> src_fits(
                #[trigger] src@[e].len() as int,
                0,
                sstride as int,
                w as int,
                h as int,
            ),
    ensures
        final(dst).len() == NUM_SPLIT_ENTRIES,
        forall|e: int|
            0 <= e < NUM_SPLIT_ENTRIES ==> #[trigger] final(dst)@[e].len() == old(dst)@[e].len(),
        forall|e: int|
            #![trigger final(dst)@[e]]
            0 <= e < NUM_SPLIT_ENTRIES ==> if e >= from {
                rect_copied(
                    final(dst)@[e]@,
                    old(dst)@[e]@,
                    src@[e]@,
                    off as int,
                    stride as int,
                    0,
                    sstride as int,
                    w as int,
                    h as int,
                )
            } else {
                final(dst)@[e] == old(dst)@[e]
            },
{
    let mut e: usize = from;
    if e > NUM_SPLIT_ENTRIES {
        e = NUM_SPLIT_ENTRIES;
    }
    while e < NUM_SPLIT_ENTRIES
        invariant
            dst.len() == NUM_SPLIT_ENTRIES,
            src.len() == NUM_SPLIT_ENTRIES,
            e <= NUM_SPLIT_ENTRIES,
            forall|f: int| 0 <= f < NUM_SPLIT_ENTRIES ==> #[trigger] dst@[f].len() == old(dst)@[f].len(),
            e >= from || e == NUM_SPLIT_ENTRIES,
            forall|f: int|
                0 <= f < NUM_SPLIT_ENTRIES ==> src_fits(
                    #[trigger] src@[f].len() as int,
                    0,
                    sstride as int,
                    w as int,
                    h as int,
                ),
            forall|f: int|
                0 <= f < NUM_SPLIT_ENTRIES ==> rect_fits(
                    #[trigger] old(dst)@[f].len() as int,
                    off as int,
                    stride as int,
                    w as int,
                    h as int,
                ),
            forall|f: int|
                #![trigger dst@[f]]
                0 <= f < NUM_SPLIT_ENTRIES ==> if from <= f < e {
                    rect_copied(
                        dst@[f]@,
                        old(dst)@[f]@,
                        src@[f]@,
                        off as int,
                        stride as int,
                        0,
                        sstride as int,
                        w as int,
                        h as int,
                    )
                } else {
                    dst@[f] == old(dst)@[f]
                },
        decreases NUM_SPLIT_ENTRIES - e,
    {
        let ghost before = dst@;
        proof {
            let _ = before[e as int]@;
        }
        copy_rect(&mut dst[e], &src[e], off, stride, 0, sstride, w, h);
        proof {
            assert forall|f: int|
                #![trigger dst@[f]]
                0 <= f < NUM_SPLIT_ENTRIES implies if from <= f < e + 1 {
                rect_copied(
                    dst@[f]@,
                    old(dst)@[f]@,
                    src@[f]@,
                    off as int,
                    stride as int,
                    0,
                    sstride as int,
                    w as int,
                    h as int,
                )
            } else {
                dst@[f] == old(dst)@[f]
            } by {
                if f != e {
                    assert(dst@[f] == before[f]);
                    let _ = before[f]@;
                } else {
                    assert(before[f] == old(dst)@[f]);
                }
            }
        }
        e += 1;
    }
    assert forall|f: int|
        #![trigger dst@[f]]
        0 <= f < NUM_SPLIT_ENTRIES && f >= from implies rect_copied(
        dst@[f]@,
        old(dst)@[f]@,
        src@[f]@,
        off as int,
        stride as int,
        0,
        sstride as int,
        w as int,
        h as int,
    ) by {
        assert(from <= f < e);
    }


}

/// One plane of a picture, in raster order.
pub struct Plane {
    pub width: usize,
    pub height: usize,
    pub data: Vec<pel>,
}

impl Plane {
    /// The samples fill the plane.
    pub open spec fn wf(&self) -> bool {
        self.data.len() == self.width * self.height
    }
}

impl EvceCUData {
    /// Whether `copy` accepts these arguments: they describe `src`, the stride is this
    /// node's width, and the source rectangle lies inside this node on the block grid.
    pub open spec fn copy_ok(&self, src: &EvceCUData, x: u16, y: u16, log2_cuw: u8, log2_cuh: u8, log2_cus: u8) -> bool {
        &&& log2_cuw == src.log2_cuw
        &&& log2_cuh == src.log2_cuh
        &&& log2_cus == self.log2_cuw
        &&& x % 4 == 0
        &&& y % 4 == 0
        &&& x + side(log2_cuw as int) <= side(self.log2_cuw as int)
        &&& y + side(log2_cuh as int) <= side(self.log2_cuh as int)
    }

    /// Whether `src` has this node's size.
    pub open spec fn same_size(&self, src: &EvceCUData) -> bool {
        src.log2_cuw == self.log2_cuw && src.log2_cuh == self.log2_cuh
    }

    /// The luma attributes and luma split decisions from depth `cud` on of `src` copied
    /// into `old` at (`x`, `y`) give `self`.
    pub open spec fn luma_blocks_copied(&self, old: &EvceCUData, src: &EvceCUData, x: int, y: int, cud: int) -> bool {
        let d = old.log2_cuw as int;
        let lw = src.log2_cuw as int;
        let lh = src.log2_cuh as int;
        let same = old.same_size(src);
        &&& (forall|e: int|
            #![trigger self.split_mode@[e]]
            0 <= e < NUM_SPLIT_ENTRIES ==> if e >= cud * NUM_BLOCK_SHAPE {
                blk_copied(self.split_mode@[e]@, old.split_mode@[e]@, src.split_mode@[e]@, d, x, y, lw, lh, same)
            } else {
                self.split_mode@[e] == old.split_mode@[e]
            })
        &&& blk_copied(self.qp_y@, old.qp_y@, src.qp_y@, d, x, y, lw, lh, same)
        &&& blk_copied(self.pred_mode@, old.pred_mode@, src.pred_mode@, d, x, y, lw, lh, same)
        &&& blk_copied(self.ipm@[0]@, old.ipm@[0]@, src.ipm@[0]@, d, x, y, lw, lh, same)
        &&& blk_copied(self.skip_flag@, old.skip_flag@, src.skip_flag@, d, x, y, lw, lh, same)
        &&& blk_copied(self.depth@, old.depth@, src.depth@, d, x, y, lw, lh, same)
        &&& blk_copied(self.map_scu@, old.map_scu@, src.map_scu@, d, x, y, lw, lh, same)
        &&& blk_copied(self.map_cu_mode@, old.map_cu_mode@, src.map_cu_mode@, d, x, y, lw, lh, same)
        &&& blk_copied(self.refi@, old.refi@, src.refi@, d, x, y, lw, lh, same)
        &&& blk_copied(self.mvp_idx@, old.mvp_idx@, src.mvp_idx@, d, x, y, lw, lh, same)
        &&& blk_copied(self.mv@, old.mv@, src.mv@, d, x, y, lw, lh, same)
        &&& blk_copied(self.mvd@, old.mvd@, src.mvd@, d, x, y, lw, lh, same)
        &&& blk_copied(self.nnz@[0]@, old.nnz@[0]@, src.nnz@[0]@, d, x, y, lw, lh, same)
    }

    /// The luma attributes, luma split decisions from depth `cud` on, luma coefficients and
    /// luma samples of `src` copied into `old` at (`x`, `y`) give `self`.
    pub open spec fn luma_copied(&self, old: &EvceCUData, src: &EvceCUData, x: int, y: int, cud: int) -> bool {
        let d = old.log2_cuw as int;
        let lw = src.log2_cuw as int;
        let lh = src.log2_cuh as int;
        &&& self.luma_blocks_copied(old, src, x, y, cud)
        &&& pel_copied(self.coef@[0]@, old.coef@[0]@, src.coef@[0]@, d, x, y, lw, lh)
        &&& pel_copied(self.reco@[0]@, old.reco@[0]@, src.reco@[0]@, d, x, y, lw, lh)
    }

    /// The luma attributes, split decisions, luma coefficients and luma samples of `self`
    /// are those of `old`.
    pub open spec fn luma_same(&self, old: &EvceCUData) -> bool {
        &&& self.split_mode == old.split_mode
        &&& self.qp_y == old.qp_y
        &&& self.pred_mode == old.pred_mode
        &&& self.ipm@[0] == old.ipm@[0]
        &&& self.skip_flag == old.skip_flag
        &&& self.depth == old.depth
        &&& self.map_scu == old.map_scu
        &&& self.map_cu_mode == old.map_cu_mode
        &&& self.refi == old.refi
        &&& self.mvp_idx == old.mvp_idx
        &&& self.mv == old.mv
        &&& self.mvd == old.mvd
        &&& self.nnz@[0] == old.nnz@[0]
        &&& self.coef@[0] == old.coef@[0]
        &&& self.reco@[0] == old.reco@[0]
    }

    /// The luma attributes, luma coefficients and luma samples of `self` and `o` agree
    /// (split decisions aside).
    pub open spec fn luma_attrs_match(&self, o: &EvceCUData) -> bool {
        &&& self.qp_y@ == o.qp_y@
        &&& self.pred_mode@ == o.pred_mode@
        &&& self.ipm@[0]@ == o.ipm@[0]@
        &&& self.skip_flag@ == o.skip_flag@
        &&& self.depth@ == o.depth@
        &&& self.map_scu@ == o.map_scu@
        &&& self.map_cu_mode@ == o.map_cu_mode@
        &&& self.refi@ == o.refi@
        &&& self.mvp_idx@ == o.mvp_idx@
        &&& self.mv@ == o.mv@
        &&& self.mvd@ == o.mvd@
        &&& self.nnz@[0]@ == o.nnz@[0]@
        &&& self.coef@[0]@ == o.coef@[0]@
        &&& self.reco@[0]@ == o.reco@[0]@
    }

    /// The chroma attributes, coefficients and samples of `self` and `o` agree.
    pub open spec fn chroma_match(&self, o: &EvceCUData) -> bool {
        &&& self.qp_u@ == o.qp_u@
        &&& self.qp_v@ == o.qp_v@
        &&& self.ipm@[1]@ == o.ipm@[1]@
        &&& self.pred_mode_chroma@ == o.pred_mode_chroma@
        &&& self.nnz@[1]@ == o.nnz@[1]@
        &&& self.nnz@[2]@ == o.nnz@[2]@
        &&& self.coef@[1]@ == o.coef@[1]@
        &&& self.coef@[2]@ == o.coef@[2]@
        &&& self.reco@[1]@ == o.reco@[1]@
        &&& self.reco@[2]@ == o.reco@[2]@
    }

    /// The chroma attributes, coefficients and samples of `src` copied into `old` at
    /// (`x`, `y`) give `self`.
    pub open spec fn chroma_copied(&self, old: &EvceCUData, src: &EvceCUData, x: int, y: int) -> bool {
        let d = old.log2_cuw as int;
        let lw = src.log2_cuw as int;
        let lh = src.log2_cuh as int;
        let same = old.same_size(src);
        &&& blk_copied(self.qp_u@, old.qp_u@, src.qp_u@, d, x, y, lw, lh, same)
        &&& blk_copied(self.qp_v@, old.qp_v@, src.qp_v@, d, x, y, lw, lh, same)
        &&& blk_copied(self.ipm@[1]@, old.ipm@[1]@, src.ipm@[1]@, d, x, y, lw, lh, same)
        &&& blk_copied(self.pred_mode_chroma@, old.pred_mode_chroma@, src.pred_mode_chroma@, d, x, y, lw, lh, same)
        &&& blk_copied(self.nnz@[1]@, old.nnz@[1]@, src.nnz@[1]@, d, x, y, lw, lh, same)
        &&& blk_copied(self.nnz@[2]@, old.nnz@[2]@, src.nnz@[2]@, d, x, y, lw, lh, same)
        &&& pel_copied(self.coef@[1]@, old.coef@[1]@, src.coef@[1]@, d - 1, x / 2, y / 2, lw - 1, lh - 1)
        &&& pel_copied(self.coef@[2]@, old.coef@[2]@, src.coef@[2]@, d - 1, x / 2, y / 2, lw - 1, lh - 1)
        &&& pel_copied(self.reco@[1]@, old.reco@[1]@, src.reco@[1]@, d - 1, x / 2, y / 2, lw - 1, lh - 1)
        &&& pel_copied(self.reco@[2]@, old.reco@[2]@, src.reco@[2]@, d - 1, x / 2, y / 2, lw - 1, lh - 1)
    }

    /// The chroma attributes, coefficients and samples of `self` are those of `old`.
    pub open spec fn chroma_same(&self, old: &EvceCUData) -> bool {
        &&& self.qp_u == old.qp_u
        &&& self.qp_v == old.qp_v
        &&& self.ipm@[1] == old.ipm@[1]
        &&& self.pred_mode_chroma == old.pred_mode_chroma
        &&& self.nnz@[1] == old.nnz@[1]
        &&& self.nnz@[2] == old.nnz@[2]
        &&& self.coef@[1] == old.coef@[1]
        &&& self.coef@[2] == old.coef@[2]
        &&& self.reco@[1] == old.reco@[1]
        &&& self.reco@[2] == old.reco@[2]
    }
}

impl EvceCUData {
    /// A store sized for a node of log2 width `log2_cuw` and log2 height `log2_cuh`, with
    /// every split decision "no split" and every other value at its default (see `fresh`):
    /// no block is coded yet.
    pub fn new(log2_cuw: u8, log2_cuh: u8) -> (r: EvceCUData)
        requires
            MIN_CU_LOG2 <= log2_cuw <= MAX_CU_LOG2,
            MIN_CU_LOG2 <= log2_cuh <= MAX_CU_LOG2,
        ensures
            r.wf(),
            r.log2_cuw == log2_cuw,
            r.log2_cuh == log2_cuh,
            r.split_all_none(),
            r.fresh(),
    {
        let cuw_scu = side_of(log2_cuw - 2);
        let cuh_scu = side_of(log2_cuh - 2);
        let cuw = side_of(log2_cuw);
        let cuh = side_of(log2_cuh);
        let cuw_c = side_of(log2_cuw - 1);
        let cuh_c = side_of(log2_cuh - 1);
        assert(cuw_scu * cuh_scu <= 256 && cuw * cuh <= 4096 && cuw_c * cuh_c <= 1024) by (nonlinear_arith)
            requires
                cuw_scu <= 16,
                cuh_scu <= 16,
                cuw <= 64,
                cuh <= 64,
                cuw_c <= 32,
                cuh_c <= 32,
        ;
        let cu_cnt = cuw_scu * cuh_scu;
        let pixel_cnt = cuw * cuh;
        let chroma_cnt = cuw_c * cuh_c;

        let mut split_mode: Vec<Vec<SplitMode>> = Vec::new();
        let mut e: usize = 0;
        while e < NUM_SPLIT_ENTRIES
            invariant
                e <= NUM_SPLIT_ENTRIES,
                split_mode.len() == e,
                forall|f: int| 0 <= f < e ==> #[trigger] split_mode@[f].len() == cu_cnt,
                forall|f: int, b: int|
                    0 <= f < e && 0 <= b < cu_cnt ==> #[trigger] split_mode@[f]@[b]
                        == SplitMode::NO_SPLIT,
            decreases NUM_SPLIT_ENTRIES - e,
        {
            split_mode.push(filled(SplitMode::NO_SPLIT, cu_cnt));
            e += 1;
        }
        let mut ipm: Vec<Vec<IntraPredDir>> = Vec::new();
        ipm.push(filled(IntraPredDir::IPD_DC_B, cu_cnt));
        ipm.push(filled(IntraPredDir::IPD_DC_B, cu_cnt));
        let mut nnz: Vec<Vec<bool>> = Vec::new();
        nnz.push(filled(false, cu_cnt));
        nnz.push(filled(false, cu_cnt));
        nnz.push(filled(false, cu_cnt));
        let mut coef: Vec<Vec<i16>> = Vec::new();
        coef.push(filled(0, pixel_cnt));
        coef.push(filled(0, chroma_cnt));
        coef.push(filled(0, chroma_cnt));
        let mut reco: Vec<Vec<pel>> = Vec::new();
        reco.push(filled(0, pixel_cnt));
        reco.push(filled(0, chroma_cnt));
        reco.push(filled(0, chroma_cnt));

        EvceCUData {
            log2_cuw,
            log2_cuh,
            split_mode,
            qp_y: filled(0, cu_cnt),
            qp_u: filled(0, cu_cnt),
            qp_v: filled(0, cu_cnt),
            pred_mode: filled(PredMode::MODE_INTRA, cu_cnt),
            pred_mode_chroma: filled(PredMode::MODE_INTRA, cu_cnt),
            ipm,
            skip_flag: filled(false, cu_cnt),
            refi: filled([0i8; REFP_NUM], cu_cnt),
            mvp_idx: filled([0u8; REFP_NUM], cu_cnt),
            mv: filled([[0i16; MV_D]; REFP_NUM], cu_cnt),
            mvd: filled([[0i16; MV_D]; REFP_NUM], cu_cnt),
            nnz,
            map_scu: filled(MCU(0), cu_cnt),
            map_cu_mode: filled(MCU(0), cu_cnt),
            depth: filled(0, cu_cnt),
            coef,
            reco,
        }
    }

    /// Resets the split decisions to "no split", the QPs to 0 and the intra directions
    /// to DC, before a candidate is evaluated at this size; nothing else changes.
    pub fn init(&mut self, log2_cuw: u8, log2_cuh: u8, qp_y: u8, qp_u: u8, qp_v: u8)
        requires
            old(self).wf(),
            log2_cuw == old(self).log2_cuw,
            log2_cuh == old(self).log2_cuh,
        ensures
            final(self).wf(),
            final(self).log2_cuw == old(self).log2_cuw,
            final(self).log2_cuh == old(self).log2_cuh,
            final(self).split_all_none(),
            forall|b: int| 0 <= b < final(self).scu_cnt() ==> #[trigger] final(self).qp_y@[b] == 0 && final(self).qp_u@[b] == 0 && final(self).qp_v@[b] == 0,
            forall|b: int| 0 <= b < final(self).scu_cnt() ==> #[trigger] final(self).ipm@[0]@[b] == IntraPredDir::IPD_DC_B && final(self).ipm@[1]@[b] == IntraPredDir::IPD_DC_B,
            final(self).pred_mode == old(self).pred_mode,
            final(self).pred_mode_chroma == old(self).pred_mode_chroma,
            final(self).skip_flag == old(self).skip_flag,
            final(self).refi == old(self).refi,
            final(self).mvp_idx == old(self).mvp_idx,
            final(self).mv == old(self).mv,
            final(self).mvd == old(self).mvd,
            final(self).nnz == old(self).nnz,
            final(self).map_scu == old(self).map_scu,
            final(self).map_cu_mode == old(self).map_cu_mode,
            final(self).depth == old(self).depth,
            final(self).coef == old(self).coef,
            final(self).reco == old(self).reco,
    {
        reset_split_table(&mut self.split_mode);
        fill(&mut self.qp_y, 0);
        fill(&mut self.qp_u, 0);
        fill(&mut self.qp_v, 0);
        fill(&mut self.ipm[0], IntraPredDir::IPD_DC_B);
        fill(&mut self.ipm[1], IntraPredDir::IPD_DC_B);
    }
}

impl EvceCUData {
    /// Merges the node `src` into this node at (`x`, `y`): luma attributes, luma split
    /// decisions from depth `cud` on, luma coefficients and samples when the constraint
    /// decides luma; chroma attributes, coefficients and samples when it decides chroma.
    /// Fails, changing nothing, unless `log2_cuw`/`log2_cuh` give `src`'s size,
    /// `log2_cus` this node's width, and the rectangle lies inside this node on the block
    /// grid.
    pub fn copy(
        &mut self,
        src: &EvceCUData,
        x: u16,
        y: u16,
        log2_cuw: u8,
        log2_cuh: u8,
        log2_cus: u8,
        cud: u16,
        tree_cons: &TREE_CONS,
    ) -> (r: Result<(), EvcError>)
        requires
            old(self).wf(),
            src.wf(),
        ensures
            final(self).wf(),
            final(self).log2_cuw == old(self).log2_cuw,
            final(self).log2_cuh == old(self).log2_cuh,
            r.is_ok() == old(self).copy_ok(src, x, y, log2_cuw, log2_cuh, log2_cus),
            r.is_err() ==> *final(self) == *old(self),
            r.is_ok() ==> if luma_active(*tree_cons) {
                final(self).luma_copied(old(self), src, x as int, y as int, cud as int)
            } else {
                final(self).luma_same(old(self))
            },
            r.is_ok() ==> if chroma_active(*tree_cons) {
                final(self).chroma_copied(old(self), src, x as int, y as int)
            } else {
                final(self).chroma_same(old(self))
            },
            tree_cons.tree_type == TREE_TYPE::TREE_L ==> final(self).chroma_same(old(self)),
            tree_cons.tree_type == TREE_TYPE::TREE_C ==> final(self).luma_same(old(self)),
    {
        if !(log2_cuw == src.log2_cuw && log2_cuh == src.log2_cuh && log2_cus == self.log2_cuw
            && x % 4 == 0 && y % 4 == 0) {
            return Err(EvcError::InvalidArgument);
        }
        let cuw = side_of(log2_cuw);
        let cuh = side_of(log2_cuh);
        let cus = side_of(log2_cus);
        if !(x as usize + cuw <= cus && y as usize + cuh <= side_of(self.log2_cuh)) {
            return Err(EvcError::InvalidArgument);
        }
        proof {
            lemma_side(log2_cuw as int);
            lemma_side(log2_cuh as int);
            lemma_side(self.log2_cuw as int);
        }
        let ghost before = *self;
        if evc_check_luma(tree_cons) {
            self.copy_luma_blocks(src, x, y, cud);
            self.copy_luma_samples(src, x, y);
            assert(self.luma_blocks_copied(&before, src, x as int, y as int, cud as int));
        }
        if evc_check_chroma(tree_cons) {
            self.copy_chroma(src, x, y);
        }
        Ok(())
    }
}

impl EvceCUData {
    /// The luma block attributes and luma split decisions of `copy`.
    #[verifier::rlimit(40)]
    fn copy_luma_blocks(&mut self, src: &EvceCUData, x: u16, y: u16, cud: u16)
        requires
            old(self).wf(),
            src.wf(),
            old(self).copy_ok(src, x, y, src.log2_cuw, src.log2_cuh, old(self).log2_cuw),
        ensures
            final(self).wf(),
            final(self).log2_cuw == old(self).log2_cuw,
            final(self).log2_cuh == old(self).log2_cuh,
            final(self).luma_blocks_copied(old(self), src, x as int, y as int, cud as int),
            final(self).coef == old(self).coef,
            final(self).reco == old(self).reco,
            final(self).nnz@[1] == old(self).nnz@[1],
            final(self).nnz@[2] == old(self).nnz@[2],
            final(self).ipm@[1] == old(self).ipm@[1],
            final(self).chroma_same(old(self)),
    {
        let cuw_scu = side_of(src.log2_cuw - 2);
        let cuh_scu = side_of(src.log2_cuh - 2);
        let cus_scu = side_of(self.log2_cuw - 2);
        let cx = x as usize / 4;
        let cy = y as usize / 4;
        let same = src.log2_cuw == self.log2_cuw && src.log2_cuh == self.log2_cuh;
        let sstride = if same {
            cuw_scu
        } else {
            0
        };
        proof {
            lemma_side(src.log2_cuw as int);
            lemma_side(src.log2_cuh as int);
            lemma_side(self.log2_cuw as int);
            lemma_side(self.log2_cuh as int);
            lemma_rect_in_grid(self.scu_w(), self.scu_h(), cx as int, cy as int, cuw_scu as int, cuh_scu as int);
        }
        let boff = cy * cus_scu + cx;
        let from = cud as usize * NUM_BLOCK_SHAPE;
        copy_split_table(&mut self.split_mode, &src.split_mode, from, boff, cus_scu, sstride, cuw_scu, cuh_scu);
        copy_rect(&mut self.qp_y, &src.qp_y, boff, cus_scu, 0, sstride, cuw_scu, cuh_scu);
        copy_rect(&mut self.pred_mode, &src.pred_mode, boff, cus_scu, 0, sstride, cuw_scu, cuh_scu);
        copy_rect(&mut self.ipm[0], &src.ipm[0], boff, cus_scu, 0, sstride, cuw_scu, cuh_scu);
        copy_rect(&mut self.skip_flag, &src.skip_flag, boff, cus_scu, 0, sstride, cuw_scu, cuh_scu);
        copy_rect(&mut self.depth, &src.depth, boff, cus_scu, 0, sstride, cuw_scu, cuh_scu);
        copy_rect(&mut self.map_scu, &src.map_scu, boff, cus_scu, 0, sstride, cuw_scu, cuh_scu);
        copy_rect(&mut self.map_cu_mode, &src.map_cu_mode, boff, cus_scu, 0, sstride, cuw_scu, cuh_scu);
        copy_rect(&mut self.refi, &src.refi, boff, cus_scu, 0, sstride, cuw_scu, cuh_scu);
        copy_rect(&mut self.mvp_idx, &src.mvp_idx, boff, cus_scu, 0, sstride, cuw_scu, cuh_scu);
        copy_rect(&mut self.mv, &src.mv, boff, cus_scu, 0, sstride, cuw_scu, cuh_scu);
        copy_rect(&mut self.mvd, &src.mvd, boff, cus_scu, 0, sstride, cuw_scu, cuh_scu);
        copy_rect(&mut self.nnz[Y_C], &src.nnz[Y_C], boff, cus_scu, 0, sstride, cuw_scu, cuh_scu);
    }

    /// The luma coefficients and samples of `copy`.
    fn copy_luma_samples(&mut self, src: &EvceCUData, x: u16, y: u16)
        requires
            old(self).wf(),
            src.wf(),
            old(self).copy_ok(src, x, y, src.log2_cuw, src.log2_cuh, old(self).log2_cuw),
        ensures
            final(self).wf(),
            final(self).log2_cuw == old(self).log2_cuw,
            final(self).log2_cuh == old(self).log2_cuh,
            pel_copied(final(self).coef@[0]@, old(self).coef@[0]@, src.coef@[0]@, old(self).log2_cuw as int, x as int, y as int, src.log2_cuw as int, src.log2_cuh as int),
            pel_copied(final(self).reco@[0]@, old(self).reco@[0]@, src.reco@[0]@, old(self).log2_cuw as int, x as int, y as int, src.log2_cuw as int, src.log2_cuh as int),
            final(self).coef@[1] == old(self).coef@[1],
            final(self).coef@[2] == old(self).coef@[2],
            final(self).reco@[1] == old(self).reco@[1],
            final(self).reco@[2] == old(self).reco@[2],
            final(self).split_mode == old(self).split_mode,
            final(self).qp_y == old(self).qp_y,
            final(self).qp_u == old(self).qp_u,
            final(self).qp_v == old(self).qp_v,
            final(self).pred_mode == old(self).pred_mode,
            final(self).pred_mode_chroma == old(self).pred_mode_chroma,
            final(self).ipm == old(self).ipm,
            final(self).skip_flag == old(self).skip_flag,
            final(self).depth == old(self).depth,
            final(self).map_scu == old(self).map_scu,
            final(self).map_cu_mode == old(self).map_cu_mode,
            final(self).refi == old(self).refi,
            final(self).mvp_idx == old(self).mvp_idx,
            final(self).mv == old(self).mv,
            final(self).mvd == old(self).mvd,
            final(self).nnz == old(self).nnz,
    {
        let cuw = side_of(src.log2_cuw);
        let cuh = side_of(src.log2_cuh);
        let cus = side_of(self.log2_cuw);
        proof {
            lemma_rect_in_grid(side(self.log2_cuw as int), side(self.log2_cuh as int), x as int, y as int, cuw as int, cuh as int);
        }
        let poff = y as usize * cus + x as usize;
        copy_rect(&mut self.coef[Y_C], &src.coef[Y_C], poff, cus, 0, cuw, cuw, cuh);
        copy_rect(&mut self.reco[Y_C], &src.reco[Y_C], poff, cus, 0, cuw, cuw, cuh);
    }

    /// The chroma part of `copy`.
    #[verifier::rlimit(40)]
    fn copy_chroma(&mut self, src: &EvceCUData, x: u16, y: u16)
        requires
            old(self).wf(),
            src.wf(),
            old(self).copy_ok(src, x, y, src.log2_cuw, src.log2_cuh, old(self).log2_cuw),
        ensures
            final(self).wf(),
            final(self).log2_cuw == old(self).log2_cuw,
            final(self).log2_cuh == old(self).log2_cuh,
            final(self).chroma_copied(old(self), src, x as int, y as int),
            final(self).luma_same(old(self)),
    {
        let cuw = side_of(src.log2_cuw);
        let cuh = side_of(src.log2_cuh);
        let cus = side_of(self.log2_cuw);
        let cuw_scu = side_of(src.log2_cuw - 2);
        let cuh_scu = side_of(src.log2_cuh - 2);
        let cus_scu = side_of(self.log2_cuw - 2);
        let cx = x as usize / 4;
        let cy = y as usize / 4;
        let same = src.log2_cuw == self.log2_cuw && src.log2_cuh == self.log2_cuh;
        let sstride = if same {
            cuw_scu
        } else {
            0
        };
        proof {
            lemma_side(src.log2_cuw as int);
            lemma_side(src.log2_cuh as int);
            lemma_side(self.log2_cuw as int);
            lemma_side(self.log2_cuh as int);
            lemma_side(src.log2_cuw - 1);
            lemma_side(src.log2_cuh - 1);
            lemma_side(self.log2_cuw - 1);
            lemma_side(self.log2_cuh - 1);
            lemma_rect_in_grid(self.scu_w(), self.scu_h(), cx as int, cy as int, cuw_scu as int, cuh_scu as int);
            lemma_rect_in_grid(side(self.log2_cuw - 1), side(self.log2_cuh - 1), x as int / 2, y as int / 2, cuw as int / 2, cuh as int / 2);
        }
        let poff = (y as usize / 2) * (cus / 2) + x as usize / 2;
        copy_rect(&mut self.coef[U_C], &src.coef[U_C], poff, cus / 2, 0, cuw / 2, cuw / 2, cuh / 2);
        copy_rect(&mut self.reco[U_C], &src.reco[U_C], poff, cus / 2, 0, cuw / 2, cuw / 2, cuh / 2);
        copy_rect(&mut self.coef[V_C], &src.coef[V_C], poff, cus / 2, 0, cuw / 2, cuw / 2, cuh / 2);
        copy_rect(&mut self.reco[V_C], &src.reco[V_C], poff, cus / 2, 0, cuw / 2, cuw / 2, cuh / 2);

        let boff = cy * cus_scu + cx;
        copy_rect(&mut self.qp_u, &src.qp_u, boff, cus_scu, 0, sstride, cuw_scu, cuh_scu);
        copy_rect(&mut self.qp_v, &src.qp_v, boff, cus_scu, 0, sstride, cuw_scu, cuh_scu);
        copy_rect(&mut self.ipm[1], &src.ipm[1], boff, cus_scu, 0, sstride, cuw_scu, cuh_scu);
        copy_rect(&mut self.pred_mode_chroma, &src.pred_mode_chroma, boff, cus_scu, 0, sstride, cuw_scu, cuh_scu);
        copy_rect(&mut self.nnz[U_C], &src.nnz[U_C], boff, cus_scu, 0, sstride, cuw_scu, cuh_scu);
        copy_rect(&mut self.nnz[V_C], &src.nnz[V_C], boff, cus_scu, 0, sstride, cuw_scu, cuh_scu);
    }
}

/// Whether a rectangle of `w` by `h` samples at (`x`, `y`) lies inside the plane.
pub open spec fn plane_holds(p: Plane, x: int, y: int, w: int, h: int) -> bool {
    p.wf() && x + w <= p.width && y + h <= p.height
}

/// The samples of `p` are those of `old` with the rectangle at (`x`, `y`) taken, row by
/// row, from the `w`-wide buffer `src`.
pub open spec fn plane_written(p: Plane, old: Plane, src: Seq<pel>, x: int, y: int, w: int, h: int) -> bool {
    &&& p.width == old.width
    &&& p.height == old.height
    &&& rect_copied(p.data@, old.data@, src, y * old.width + x, old.width as int, 0, w, w, h)
}

/// The rectangle at (`x`, `y`) of the plane holds, row by row, the `w`-wide buffer `src`.
pub open spec fn plane_shows(p: Plane, src: Seq<pel>, x: int, y: int, w: int, h: int) -> bool {
    forall|k: int|
        0 <= k < p.data.len() && in_rect(k, y * p.width + x, p.width as int, w, h) ==> #[trigger] p.data@[k]
            == src[rect_src(k, y * p.width + x, p.width as int, 0, w)]
}

/// A written rectangle shows its source.
pub proof fn lemma_written_shows(p: Plane, old: Plane, src: Seq<pel>, x: int, y: int, w: int, h: int)
    requires
        plane_written(p, old, src, x, y, w, h),
    ensures
        plane_shows(p, src, x, y, w, h),
{
    reveal(rect_copied);
}

/// Writes the rectangle of `src`, `w` samples wide, into the plane at (`x`, `y`).
fn write_plane(p: &mut Plane, src: &Vec<pel>, x: usize, y: usize, w: usize, h: usize)
    requires
        plane_holds(*old(p), x as int, y as int, w as int, h as int),
        1 <= w,
        1 <= h,
        src.len() == w * h,
    ensures
        final(p).wf(),
        plane_written(*final(p), *old(p), src@, x as int, y as int, w as int, h as int),
{
    proof {
        lemma_rect_in_grid(p.width as int, p.height as int, x as int, y as int, w as int, h as int);
        assert(p.width * p.height == p.data.len());
    }
    let stride = p.width;
    copy_rect(&mut p.data, src, y * stride + x, stride, 0, w, w, h);
}

impl EvceCUData {
    /// Commits this node's reconstructed samples to the picture at (`x`, `y`): luma when
    /// the constraint decides luma, both chroma planes (at half resolution) when it
    /// decides chroma. Nothing else in the planes changes.
    pub fn mode_cpy_rec_to_ref(
        &self,
        x: usize,
        y: usize,
        w: usize,
        h: usize,
        planes: &mut [Plane; N_C],
        tree_cons: &TREE_CONS,
    )
        requires
            self.wf(),
            w == side(self.log2_cuw as int),
            h == side(self.log2_cuh as int),
            x % 2 == 0,
            y % 2 == 0,
            plane_holds(old(planes)[0], x as int, y as int, w as int, h as int),
            plane_holds(old(planes)[1], x as int / 2, y as int / 2, w as int / 2, h as int / 2),
            plane_holds(old(planes)[2], x as int / 2, y as int / 2, w as int / 2, h as int / 2),
        ensures
            if luma_active(*tree_cons) {
                plane_written(final(planes)[0], old(planes)[0], self.reco@[0]@, x as int, y as int, w as int, h as int)
            } else {
                final(planes)[0] == old(planes)[0]
            },
            if chroma_active(*tree_cons) {
                &&& plane_written(final(planes)[1], old(planes)[1], self.reco@[1]@, x as int / 2, y as int / 2, w as int / 2, h as int / 2)
                &&& plane_written(final(planes)[2], old(planes)[2], self.reco@[2]@, x as int / 2, y as int / 2, w as int / 2, h as int / 2)
            } else {
                final(planes)[1] == old(planes)[1] && final(planes)[2] == old(planes)[2]
            },
            final(planes)[0].wf() && final(planes)[1].wf() && final(planes)[2].wf(),
            luma_active(*tree_cons) ==> plane_shows(final(planes)[0], self.reco@[0]@, x as int, y as int, w as int, h as int),
            chroma_active(*tree_cons) ==> plane_shows(final(planes)[1], self.reco@[1]@, x as int / 2, y as int / 2, w as int / 2, h as int / 2)
                && plane_shows(final(planes)[2], self.reco@[2]@, x as int / 2, y as int / 2, w as int / 2, h as int / 2),
    {
        proof {
            lemma_side(self.log2_cuw as int);
            lemma_side(self.log2_cuh as int);
        }
        let ghost planes_before = *planes;
        if evc_check_luma(tree_cons) {
            write_plane(&mut planes[Y_C], &self.reco[Y_C], x, y, w, h);
            proof {
                lemma_written_shows(planes[0], planes_before[0], self.reco@[0]@, x as int, y as int, w as int, h as int);
            }
        }
        let ghost planes_mid = *planes;
        if evc_check_chroma(tree_cons) {
            write_plane(&mut planes[U_C], &self.reco[U_C], x / 2, y / 2, w / 2, h / 2);
            write_plane(&mut planes[V_C], &self.reco[V_C], x / 2, y / 2, w / 2, h / 2);
            proof {
                lemma_written_shows(planes[1], planes_mid[1], self.reco@[1]@, x as int / 2, y as int / 2, w as int / 2, h as int / 2);
                lemma_written_shows(planes[2], planes_mid[2], self.reco@[2]@, x as int / 2, y as int / 2, w as int / 2, h as int / 2);
            }
        }
    }
}

/// Copying a whole node onto a node of its own size makes the copied planes equal to the
/// source, split decisions from depth `cud` on included.
pub proof fn lemma_same_size_copy(new: &EvceCUData, old: &EvceCUData, src: &EvceCUData, cud: int)
    requires
        old.wf(),
        src.wf(),
        new.wf(),
        new.log2_cuw == old.log2_cuw && new.log2_cuh == old.log2_cuh,
        old.same_size(src),
    ensures
        new.luma_copied(old, src, 0, 0, cud) ==> new.luma_attrs_match(src) && (forall|e: int|
            0 <= e && cud * NUM_BLOCK_SHAPE <= e < NUM_SPLIT_ENTRIES ==> #[trigger] new.split_mode@[e]@ == src.split_mode@[e]@),
        new.chroma_copied(old, src, 0, 0) ==> new.chroma_match(src),
{
    let d = old.log2_cuw as int;
    let dh = old.log2_cuh as int;
    lemma_side(d);
    lemma_side(dh);
    let s = side(d - 2);
    let h = side(dh - 2);
    let sp = side(d);
    let hp = side(dh);
    let sc = side(d - 1);
    let hc = side(dh - 1);
    assert(0int / 4 == 0 && 0int * s + 0 == 0 && 0int * sp + 0 == 0 && 0int * sc + 0 == 0 && 0int / 2 == 0);
    if new.luma_copied(old, src, 0, 0, cud) {
        lemma_full_rect(new.qp_y@, old.qp_y@, src.qp_y@, s, h);
        lemma_full_rect(new.pred_mode@, old.pred_mode@, src.pred_mode@, s, h);
        lemma_full_rect(new.ipm@[0]@, old.ipm@[0]@, src.ipm@[0]@, s, h);
        lemma_full_rect(new.skip_flag@, old.skip_flag@, src.skip_flag@, s, h);
        lemma_full_rect(new.depth@, old.depth@, src.depth@, s, h);
        lemma_full_rect(new.map_scu@, old.map_scu@, src.map_scu@, s, h);
        lemma_full_rect(new.map_cu_mode@, old.map_cu_mode@, src.map_cu_mode@, s, h);
        lemma_full_rect(new.refi@, old.refi@, src.refi@, s, h);
        lemma_full_rect(new.mvp_idx@, old.mvp_idx@, src.mvp_idx@, s, h);
        lemma_full_rect(new.mv@, old.mv@, src.mv@, s, h);
        lemma_full_rect(new.mvd@, old.mvd@, src.mvd@, s, h);
        lemma_full_rect(new.nnz@[0]@, old.nnz@[0]@, src.nnz@[0]@, s, h);
        lemma_full_rect(new.coef@[0]@, old.coef@[0]@, src.coef@[0]@, sp, hp);
        lemma_full_rect(new.reco@[0]@, old.reco@[0]@, src.reco@[0]@, sp, hp);
        assert forall|e: int| 0 <= e && cud * NUM_BLOCK_SHAPE <= e < NUM_SPLIT_ENTRIES implies #[trigger] new.split_mode@[e]@
            == src.split_mode@[e]@ by {
            let _ = new.split_mode@[e];
            assert(new.split_mode@[e].len() == s * h && src.split_mode@[e].len() == s * h);
            lemma_full_rect(new.split_mode@[e]@, old.split_mode@[e]@, src.split_mode@[e]@, s, h);
        }
    }
    if new.chroma_copied(old, src, 0, 0) {
        lemma_full_rect(new.qp_u@, old.qp_u@, src.qp_u@, s, h);
        lemma_full_rect(new.qp_v@, old.qp_v@, src.qp_v@, s, h);
        lemma_full_rect(new.ipm@[1]@, old.ipm@[1]@, src.ipm@[1]@, s, h);
        lemma_full_rect(new.pred_mode_chroma@, old.pred_mode_chroma@, src.pred_mode_chroma@, s, h);
        lemma_full_rect(new.nnz@[1]@, old.nnz@[1]@, src.nnz@[1]@, s, h);
        lemma_full_rect(new.nnz@[2]@, old.nnz@[2]@, src.nnz@[2]@, s, h);
        lemma_full_rect(new.coef@[1]@, old.coef@[1]@, src.coef@[1]@, sc, hc);
        lemma_full_rect(new.coef@[2]@, old.coef@[2]@, src.coef@[2]@, sc, hc);
        lemma_full_rect(new.reco@[1]@, old.reco@[1]@, src.reco@[1]@, sc, hc);
        lemma_full_rect(new.reco@[2]@, old.reco@[2]@, src.reco@[2]@, sc, hc);
    }
}

} // verus!
