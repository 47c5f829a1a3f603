//! Coding-tree search: admissible splits, neighbour heuristics, QP range, and the
//! recursive cost-driven decision, over the per-size coding-unit data stores.
use vstd::prelude::*;
use crate::com::{
    IntraPredDir, PredMode, chroma_active, default_tree_cons, evc_check_luma, evc_get_default_tree_cons, luma_active, EvcError, SplitMode, TREE_CONS,
    AVAIL_LE, AVAIL_LO_LE, AVAIL_LO_RI, AVAIL_RI, AVAIL_UP, AVAIL_UP_LE, AVAIL_UP_RI,
    GET_QP, IS_AVAIL, MAX_CU_DEPTH, MAX_CU_LOG2, MAX_SPLIT_NUM, MIN_CU_LOG2, MIN_CU_SIZE, MV_D,
    N_C, NUM_BLOCK_SHAPE, REFP_NUM, SET_AVAIL, SQUARE, trunc_rem,
    pred_mode_code,
};
use crate::cu_data::{side, side_of, lemma_side, lemma_same_size_copy, plane_shows, EvceCUData, Plane, NUM_SPLIT_ENTRIES};
use crate::mcu::{cod_of, sf_of, with_bits, with_if_cod_sn_qp, MCU};
use crate::rect::{fill, fill_rect, in_rect};
use vstd::arithmetic::mul::lemma_mul_inequality;
use vstd::arithmetic::div_mod::{lemma_fundamental_div_mod, lemma_fundamental_div_mod_converse, lemma_mod_pos_bound};

verus! {

/// Largest cost; also the cost of a candidate that was not evaluated.
pub const MAX_COST: u64 = 0xFFFF_FFFF_FFFF_FFFF;

/// Sum of two costs, saturating at `MAX_COST`.
pub open spec fn sat_add(a: int, b: int) -> int {
    if a + b > MAX_COST {
        MAX_COST as int
    } else {
        a + b
    }
}

/// Product of two costs, saturating at `MAX_COST`.
pub open spec fn sat_mul(a: int, b: int) -> int {
    if a * b > MAX_COST {
        MAX_COST as int
    } else {
        a * b
    }
}

/// Sum of two costs, saturating at `MAX_COST`.
pub fn cost_add(a: u64, b: u64) -> (r: u64)
    ensures
        r == sat_add(a as int, b as int),
{
    if a > MAX_COST - b {
        MAX_COST
    } else {
        a + b
    }
}

/// Product of two costs, saturating at `MAX_COST`.
pub fn cost_mul(a: u64, b: u64) -> (r: u64)
    ensures
        r == sat_mul(a as int, b as int),
{
    if a == 0 || b <= MAX_COST / a {
        proof {
            if a != 0 {
                assert(a * b <= a * (MAX_COST / a)) by (nonlinear_arith)
                    requires
                        b <= MAX_COST / a,
                        a > 0,
                ;
                assert(a * (MAX_COST / a) <= MAX_COST) by (nonlinear_arith)
                    requires
                        a > 0,
                ;
            }
        }
        a * b
    } else {
        proof {
            assert(a * b > MAX_COST) by (nonlinear_arith)
                requires
                    a > 0,
                    b > MAX_COST / a,
            ;
        }
        MAX_COST
    }
}

/// Whether `v` is a block side the codec uses (a power of two up to 128).
pub open spec fn is_side(v: int) -> bool {
    v == 1 || v == 2 || v == 4 || v == 8 || v == 16 || v == 32 || v == 64 || v == 128
}

/// Log2 of a block side.
pub open spec fn log2_side(v: int) -> int {
    if v == 2 {
        1
    } else if v == 4 {
        2
    } else if v == 8 {
        3
    } else if v == 16 {
        4
    } else if v == 32 {
        5
    } else if v == 64 {
        6
    } else if v == 128 {
        7
    } else {
        0
    }
}

/// Log2 of a block side.
pub fn CONV_LOG2(v: usize) -> (r: u8)
    requires
        is_side(v as int),
    ensures
        r <= 7,
        side(r as int) == v,
        r == log2_side(v as int),
{
    match v {
        1 => 0,
        2 => 1,
        4 => 2,
        8 => 3,
        16 => 4,
        32 => 5,
        64 => 6,
        _ => 7,
    }
}

/// Mode history: the winning prediction parameters of the last committed leaf, kept for
/// predictor continuity.
pub struct EvceMode {
    /// Log2 of the minimal blocks in a row of a largest coding block.
    pub log2_culine: u8,
    pub refi: [i8; REFP_NUM],
    pub mvp_idx: [u8; REFP_NUM],
    pub bi_idx: u8,
    pub mvd: [[i16; MV_D]; REFP_NUM],
    pub mv: [[i16; MV_D]; REFP_NUM],
    pub cu_mode: MCU,
}

impl EvceMode {
    /// Empty history.
    pub fn new() -> (r: EvceMode)
        ensures
            r.log2_culine == 0,
            r.cu_mode == MCU(0),
    {
        EvceMode {
            log2_culine: 0,
            refi: [0i8; REFP_NUM],
            mvp_idx: [0u8; REFP_NUM],
            bi_idx: 0,
            mvd: [[0i16; MV_D]; REFP_NUM],
            mv: [[0i16; MV_D]; REFP_NUM],
            cu_mode: MCU(0),
        }
    }

    /// Takes the prediction mode, motion vectors, motion vector differences and reference
    /// indices of the minimal block at (`x`, `y`) of `src`, whose row stride is given by
    /// `log2_cus`.
    pub fn get_cu_pred_data(
        &mut self,
        src: &EvceCUData,
        x: u16,
        y: u16,
        log2_cuw: u8,
        log2_cuh: u8,
        log2_cus: u8,
        cud: u16,
    )
        requires
            src.wf(),
            log2_cus == src.log2_cuw,
            x / 4 < src.scu_w(),
            y / 4 < src.scu_h(),
        ensures
            ({
                let i = (y / 4) * src.scu_w() + x / 4;
                &&& final(self).cu_mode == MCU(pred_mode_code(src.pred_mode@[i]))
                &&& final(self).mv == src.mv@[i]
                &&& final(self).refi == src.refi@[i]
                &&& final(self).mvd == src.mvd@[i]
            }),
            final(self).log2_culine == old(self).log2_culine,
            final(self).mvp_idx == old(self).mvp_idx,
            final(self).bi_idx == old(self).bi_idx,
    {
        let cx = x as usize / 4;
        let cy = y as usize / 4;
        let cus_scu = side_of(log2_cus - 2);
        proof {
            assert(cy * cus_scu + cx < src.scu_w() * src.scu_h()) by (nonlinear_arith)
                requires
                    cy < src.scu_h(),
                    cx < src.scu_w(),
                    cus_scu == src.scu_w(),
            ;
        }
        let idx_src = cy * cus_scu + cx;
        self.cu_mode = MCU(src.pred_mode[idx_src].code());
        self.mv = src.mv[idx_src];
        self.refi = src.refi[idx_src];
        self.mvd = src.mvd[idx_src];
    }
}

/// What prediction and residual coding reported for one "no split" candidate: the node at
/// (`x`, `y`) of log2 size `log2_size`, coded at `qp`.
#[derive(Clone, Copy, Debug, PartialEq, Eq, Structural)]
pub struct CuEval {
    pub x: u16,
    pub y: u16,
    pub log2_size: u8,
    pub qp: u8,
    /// Rate-distortion cost.
    pub cost: u64,
    /// Whether the best prediction is intra.
    pub intra: bool,
    /// Whether the best prediction is skip.
    pub skip: bool,
}

/// Bits that the entropy model counts for signalling `split` at a node.
#[derive(Clone, Copy, Debug, PartialEq, Eq, Structural)]
pub struct SplitBits {
    pub x: u16,
    pub y: u16,
    pub log2_size: u8,
    pub split: SplitMode,
    pub bits: u64,
}

/// Results of the search's outside collaborators, looked up by node: the cost of each
/// candidate and the bits of each split symbol. The first matching entry counts; a
/// candidate without an entry costs `MAX_COST` and a symbol without one costs no bits.
pub struct EvalTable {
    pub cu: Vec<CuEval>,
    pub split_bits: Vec<SplitBits>,
}

/// First entry of `s` from index `i` on that describes the candidate.
pub open spec fn cu_find(s: Seq<CuEval>, x: int, y: int, l: int, qp: int, i: int) -> Option<CuEval>
    decreases s.len() - i,
{
    if i < 0 || i >= s.len() {
        None
    } else if s[i].x == x && s[i].y == y && s[i].log2_size == l && s[i].qp == qp {
        Some(s[i])
    } else {
        cu_find(s, x, y, l, qp, i + 1)
    }
}

/// First entry of `s` from index `i` on that describes the split symbol.
pub open spec fn bits_find(s: Seq<SplitBits>, x: int, y: int, l: int, m: SplitMode, i: int) -> Option<SplitBits>
    decreases s.len() - i,
{
    if i < 0 || i >= s.len() {
        None
    } else if s[i].x == x && s[i].y == y && s[i].log2_size == l && s[i].split == m {
        Some(s[i])
    } else {
        bits_find(s, x, y, l, m, i + 1)
    }
}

impl EvalTable {
    /// The entry for a candidate.
    pub open spec fn cu_entry(&self, x: int, y: int, l: int, qp: int) -> Option<CuEval> {
        cu_find(self.cu@, x, y, l, qp, 0)
    }

    /// Cost of a candidate.
    pub open spec fn cu_cost(&self, x: int, y: int, l: int, qp: int) -> int {
        match self.cu_entry(x, y, l, qp) {
            Some(e) => e.cost as int,
            None => MAX_COST as int,
        }
    }

    /// Bits of a split symbol.
    pub open spec fn bits(&self, x: int, y: int, l: int, m: SplitMode) -> int {
        match bits_find(self.split_bits@, x, y, l, m, 0) {
            Some(e) => e.bits as int,
            None => 0,
        }
    }

    /// The entry for the candidate at (`x`, `y`) of log2 size `l` coded at `qp`.
    pub fn lookup_cu(&self, x: u16, y: u16, l: u8, qp: u8) -> (r: Option<CuEval>)
        ensures
            r == self.cu_entry(x as int, y as int, l as int, qp as int),
    {
        let mut i: usize = 0;
        while i < self.cu.len()
            invariant
                i <= self.cu.len(),
                cu_find(self.cu@, x as int, y as int, l as int, qp as int, 0) == cu_find(self.cu@, x as int, y as int, l as int, qp as int, i as int),
            decreases self.cu.len() - i,
        {
            let e = self.cu[i];
            if e.x == x && e.y == y && e.log2_size == l && e.qp == qp {
                return Some(e);
            }
            i += 1;
        }
        None
    }

    /// Bits of signalling `m` at the node at (`x`, `y`) of log2 size `l`.
    pub fn lookup_bits(&self, x: u16, y: u16, l: u8, m: SplitMode) -> (r: u64)
        ensures
            r == self.bits(x as int, y as int, l as int, m),
    {
        let mut i: usize = 0;
        while i < self.split_bits.len()
            invariant
                i <= self.split_bits.len(),
                bits_find(self.split_bits@, x as int, y as int, l as int, m, 0) == bits_find(self.split_bits@, x as int, y as int, l as int, m, i as int),
            decreases self.split_bits.len() - i,
        {
            let e = self.split_bits[i];
            if e.x == x && e.y == y && e.log2_size == l && e.split == m {
                return e.bits;
            }
            i += 1;
        }
        0
    }
}

/// Frame setup: picture size and coding parameters, read-only during the search.
#[derive(Clone, Copy, Debug, PartialEq, Eq, Structural)]
pub struct FrameParams {
    /// Picture width and height in luma samples.
    pub w: u16,
    pub h: u16,
    /// Log2 side of the largest coding block.
    pub log2_max_cuwh: u8,
    /// Slice QP.
    pub qp: u8,
    /// Slice QP-delta range.
    pub dqp: u8,
    /// Whether coding-unit QP deltas are enabled.
    pub cu_qp_delta_enabled_flag: bool,
    /// Whether QP deltas are signalled by area.
    pub dquant_flag: bool,
    /// Log2 area at which a QP delta is signalled.
    pub cu_qp_delta_area: u8,
    /// Whether the slice is intra-only.
    pub slice_intra: bool,
    /// Slice number recorded in the packed status of committed blocks.
    pub slice_num: u8,
    /// Lagrangian multiplier that converts bits to cost.
    pub lambda: u64,
}

/// Per-block-size working state of the search.
pub struct EvceCore {
    /// Position of the current largest coding block.
    pub x_pel: u16,
    pub y_pel: u16,
    /// QP of the candidate being evaluated.
    pub qp: u8,
    /// Delta-QP signalling mode: 0 none, 1 signalled at this node, 2 inherited.
    pub cu_qp_delta_code_mode: u8,
    /// Best and candidate data stores, one per square size, indexed by log2 size - 2.
    pub cu_data_best: Vec<EvceCUData>,
    pub cu_data_temp: Vec<EvceCUData>,
}

/// Number of square sizes the search can visit (4x4 up to 64x64).
pub const NUM_CU_SIZES: usize = 5;

/// Encoder context of one frame: parameters, frame-wide maps, mode history and the
/// working state of the search.
pub struct EvceCtx {
    pub w: u16,
    pub h: u16,
    /// Picture width and height in minimal blocks.
    pub w_scu: u16,
    pub h_scu: u16,
    pub log2_max_cuwh: u8,
    /// Side of the smallest coding unit.
    pub min_cuwh: u16,
    pub qp: u8,
    pub dqp: u8,
    pub cu_qp_delta_enabled_flag: bool,
    pub dquant_flag: bool,
    pub cu_qp_delta_area: u8,
    pub slice_intra: bool,
    pub slice_num: u8,
    pub lambda: u64,
    /// Packed status of every minimal block of the picture.
    pub map_scu: Vec<MCU>,
    /// Packed status of the mode decision of every minimal block.
    pub map_cu_mode: Vec<MCU>,
    /// Tree depth of every minimal block.
    pub map_depth: Vec<i8>,
    pub mode: EvceMode,
    pub core: EvceCore,
    /// Reference picture receiving reconstructed samples of committed leaves, if any.
    pub pic: Option<[Plane; N_C]>,
}

/// Whether the planes can receive every block of a `w` by `h` picture.
pub open spec fn planes_fit(p: [Plane; N_C], w: int, h: int) -> bool {
    &&& p[0].wf() && p[0].width >= w && p[0].height >= h
    &&& p[1].wf() && p[1].width >= w / 2 && p[1].height >= h / 2
    &&& p[2].wf() && p[2].width >= w / 2 && p[2].height >= h / 2
}

/// Whether the slots hold one well-formed square store per size, smallest first.
pub open spec fn slots_wf(v: Seq<EvceCUData>) -> bool {
    &&& v.len() == NUM_CU_SIZES
    &&& (forall|i: int|
        #![trigger v[i]]
        0 <= i < NUM_CU_SIZES ==> v[i].wf() && v[i].log2_cuw == i + 2 && v[i].log2_cuh == i + 2)
}

/// Whether the plane is well formed and at least `w` by `h`.
fn plane_covers(p: &Plane, w: usize, h: usize) -> (r: bool)
    ensures
        r == (p.wf() && p.width >= w && p.height >= h),
{
    match p.width.checked_mul(p.height) {
        Some(n) => n == p.data.len() && p.width >= w && p.height >= h,
        None => false,
    }
}

impl EvceCtx {
    /// The frame parameters and sizes are consistent, and every map and store is sized
    /// for them.
    pub open spec fn wf(&self) -> bool {
        &&& self.w > 0 && self.h > 0
        &&& self.w % 4 == 0 && self.h % 4 == 0
        &&& self.w_scu == self.w / 4 && self.h_scu == self.h / 4
        &&& self.min_cuwh == MIN_CU_SIZE
        &&& MIN_CU_LOG2 <= self.log2_max_cuwh <= MAX_CU_LOG2
        &&& self.qp <= 51 && self.dqp <= 51
        &&& self.map_scu.len() == self.w_scu * self.h_scu
        &&& self.map_cu_mode.len() == self.w_scu * self.h_scu
        &&& self.map_depth.len() == self.w_scu * self.h_scu
        &&& slots_wf(self.core.cu_data_best@)
        &&& slots_wf(self.core.cu_data_temp@)
        &&& (self.pic matches Some(p) ==> planes_fit(p, self.w as int, self.h as int))
    }

    /// The frame parameters of `self` and `o` agree.
    pub open spec fn frame_same(&self, o: &EvceCtx) -> bool {
        &&& self.w == o.w && self.h == o.h && self.w_scu == o.w_scu && self.h_scu == o.h_scu
        &&& self.log2_max_cuwh == o.log2_max_cuwh && self.min_cuwh == o.min_cuwh
        &&& self.qp == o.qp && self.dqp == o.dqp
        &&& self.cu_qp_delta_enabled_flag == o.cu_qp_delta_enabled_flag
        &&& self.dquant_flag == o.dquant_flag && self.cu_qp_delta_area == o.cu_qp_delta_area
        &&& self.slice_intra == o.slice_intra && self.slice_num == o.slice_num
        &&& self.lambda == o.lambda
    }

    /// Whether `p` describes a frame the search can work on.
    pub open spec fn params_ok(p: FrameParams) -> bool {
        &&& p.w > 0 && p.h > 0
        &&& p.w % 4 == 0 && p.h % 4 == 0
        &&& MIN_CU_LOG2 <= p.log2_max_cuwh <= MAX_CU_LOG2
        &&& p.qp <= 51 && p.dqp <= 51
    }

    /// Sets up a frame: fails with `InvalidConfig` unless the picture size is a positive
    /// multiple of the minimal block, the largest block is 4x4 to 64x64, and the QP and
    /// QP-delta range are at most 51. Maps start empty and no reference picture is attached.
    pub fn new(p: FrameParams) -> (r: Result<EvceCtx, EvcError>)
        ensures
            r.is_ok() == Self::params_ok(p),
            r matches Ok(c) ==> {
                &&& c.wf()
                &&& c.w == p.w && c.h == p.h && c.log2_max_cuwh == p.log2_max_cuwh
                &&& c.qp == p.qp && c.dqp == p.dqp
                &&& c.cu_qp_delta_enabled_flag == p.cu_qp_delta_enabled_flag
                &&& c.dquant_flag == p.dquant_flag
                &&& c.cu_qp_delta_area == p.cu_qp_delta_area
                &&& c.slice_intra == p.slice_intra && c.slice_num == p.slice_num
                &&& c.lambda == p.lambda
                &&& c.core.cu_qp_delta_code_mode == 0
                &&& c.pic.is_none()
                &&& (forall|k: int| 0 <= k < c.map_scu.len() ==> #[trigger] c.map_scu@[k] == MCU(0))
                &&& (forall|k: int| 0 <= k < c.map_depth.len() ==> #[trigger] c.map_depth@[k] == 0)
            },
            r matches Err(e) ==> e == EvcError::InvalidConfig,
    {
        if !(p.w > 0 && p.h > 0 && p.w % 4 == 0 && p.h % 4 == 0 && MIN_CU_LOG2 as u8 <= p.log2_max_cuwh
            && p.log2_max_cuwh <= MAX_CU_LOG2 as u8 && p.qp <= 51 && p.dqp <= 51) {
            return Err(EvcError::InvalidConfig);
        }
        let w_scu = p.w / 4;
        let h_scu = p.h / 4;
        proof {
            assert(w_scu as int * h_scu as int <= 0xFFFF * 0xFFFF) by (nonlinear_arith)
                requires
                    w_scu <= 0xFFFF,
                    h_scu <= 0xFFFF,
            ;
        }
        let n = w_scu as usize * h_scu as usize;
        let mut map_scu: Vec<MCU> = Vec::new();
        let mut map_cu_mode: Vec<MCU> = Vec::new();
        let mut map_depth: Vec<i8> = Vec::new();
        let mut i: usize = 0;
        while i < n
            invariant
                i <= n,
                map_scu.len() == i && map_cu_mode.len() == i && map_depth.len() == i,
                forall|k: int| 0 <= k < i ==> #[trigger] map_scu@[k] == MCU(0),
                forall|k: int| 0 <= k < i ==> #[trigger] map_depth@[k] == 0,
            decreases n - i,
        {
            map_scu.push(MCU(0));
            map_cu_mode.push(MCU(0));
            map_depth.push(0);
            i += 1;
        }
        let mut best: Vec<EvceCUData> = Vec::new();
        let mut temp: Vec<EvceCUData> = Vec::new();
        let mut l: u8 = 2;
        while l <= 6
            invariant
                2 <= l <= 7,
                best.len() == l - 2 && temp.len() == l - 2,
                forall|i: int|
                    0 <= i < l - 2 ==> #[trigger] best@[i].wf() && best@[i].log2_cuw == i + 2
                        && best@[i].log2_cuh == i + 2,
                forall|i: int|
                    0 <= i < l - 2 ==> #[trigger] temp@[i].wf() && temp@[i].log2_cuw == i + 2
                        && temp@[i].log2_cuh == i + 2,
            decreases 7 - l,
        {
            best.push(EvceCUData::new(l, l));
            temp.push(EvceCUData::new(l, l));
            l += 1;
        }
        let mut mode = EvceMode::new();
        mode.log2_culine = p.log2_max_cuwh - MIN_CU_LOG2 as u8;
        Ok(EvceCtx {
            w: p.w,
            h: p.h,
            w_scu,
            h_scu,
            log2_max_cuwh: p.log2_max_cuwh,
            min_cuwh: MIN_CU_SIZE as u16,
            qp: p.qp,
            dqp: p.dqp,
            cu_qp_delta_enabled_flag: p.cu_qp_delta_enabled_flag,
            dquant_flag: p.dquant_flag,
            cu_qp_delta_area: p.cu_qp_delta_area,
            slice_intra: p.slice_intra,
            slice_num: p.slice_num,
            lambda: p.lambda,
            map_scu,
            map_cu_mode,
            map_depth,
            mode,
            core: EvceCore {
                x_pel: 0,
                y_pel: 0,
                qp: p.qp,
                cu_qp_delta_code_mode: 0,
                cu_data_best: best,
                cu_data_temp: temp,
            },
            pic: None,
        })
    }

    /// Attaches the reference picture that committed leaves write their samples into;
    /// fails with `InvalidConfig`, attaching nothing, unless its planes cover the picture.
    pub fn attach_pic(&mut self, planes: [Plane; N_C]) -> (r: Result<(), EvcError>)
        requires
            old(self).wf(),
        ensures
            final(self).wf(),
            r.is_ok() == planes_fit(planes, old(self).w as int, old(self).h as int),
            r.is_ok() ==> final(self).pic == Some(planes),
            r.is_err() ==> final(self).pic == old(self).pic,
            final(self).map_scu == old(self).map_scu,
            final(self).map_depth == old(self).map_depth,
    {
        let w = self.w as usize;
        let h = self.h as usize;
        if !(plane_covers(&planes[0], w, h) && plane_covers(&planes[1], w / 2, h / 2) && plane_covers(&planes[2], w / 2, h / 2)) {
            return Err(EvcError::InvalidConfig);
        }
        self.pic = Some(planes);
        Ok(())
    }

    /// Per-frame set-up of the mode decision: the row length of a largest coding block in
    /// minimal blocks, as a log2.
    pub fn mode_init_frame(&mut self)
        requires
            old(self).wf(),
        ensures
            final(self).mode.log2_culine == old(self).log2_max_cuwh - MIN_CU_LOG2,
            final(self).wf(),
    {
        self.mode.log2_culine = self.log2_max_cuwh - MIN_CU_LOG2 as u8;
    }
}

/// Whether any split option (other than "no split") is in the set.
pub open spec fn any_split(a: Seq<bool>) -> bool {
    a[1] || a[2] || a[3] || a[4] || a[5]
}

/// The split-option set after pruning: only "no split" without a further split allowed;
/// else "no split" as the heuristics say and each split option both normatively allowed
/// and wanted by the heuristics, with "no split" forced back when no split option is left.
pub open spec fn run_split(a: Seq<bool>, next_split: bool, do_curr: bool, do_split: bool) -> Seq<bool> {
    if !next_split {
        seq![true, false, false, false, false, false]
    } else {
        let b = seq![do_curr, do_split && a[1], do_split && a[2], do_split && a[3], do_split && a[4], do_split && a[5]];
        if any_split(b) {
            b
        } else {
            b.update(0, true)
        }
    }
}

/// Split options the coding rules allow for a node larger than the minimal size: no split
/// and quad split.
pub open spec fn normative_split() -> Seq<bool> {
    seq![true, false, false, false, false, true]
}

/// Split options for a node of the minimal size: no split only.
pub open spec fn min_size_split() -> Seq<bool> {
    seq![true, false, false, false, false, false]
}

/// The normative split-option set for a node larger than the minimal size.
pub fn evc_check_split_mode(split_allow: &mut Vec<bool>)
    requires
        old(split_allow).len() == MAX_SPLIT_NUM,
    ensures
        final(split_allow)@ == normative_split(),
{
    split_allow[0] = true;
    split_allow[1] = false;
    split_allow[2] = false;
    split_allow[3] = false;
    split_allow[4] = false;
    split_allow[5] = true;
    assert(split_allow@ =~= normative_split());
}

/// QP range of a node: (lowest QP, highest QP, whether a QP delta must be signalled here,
/// new delta-QP signalling mode). Without QP deltas the slice QP alone; with them and no
/// area signalling, the slice range for "no split" and the inherited QP otherwise; with area
/// signalling, the slice range where the node opens or meets the signalling area, the
/// inherited QP elsewhere.
pub open spec fn qp_range(
    enabled: bool,
    dquant: bool,
    area: int,
    slice_qp: int,
    dqp: int,
    mode: int,
    split: SplitMode,
    lw: int,
    lh: int,
    qp: int,
) -> (int, int, bool, int) {
    if !enabled {
        (slice_qp, slice_qp, false, mode)
    } else if !dquant {
        if split != SplitMode::NO_SPLIT {
            (qp, qp, false, mode)
        } else {
            (slice_qp, slice_qp + dqp, false, mode)
        }
    } else if split == SplitMode::NO_SPLIT && lw + lh >= area && mode != 2 {
        if lw == 7 || lh == 7 {
            (slice_qp, slice_qp + dqp, true, 2)
        } else {
            (slice_qp, slice_qp + dqp, false, 1)
        }
    } else if lw + lh == area + 1 || (lw + lh == area && mode != 2) {
        (slice_qp, slice_qp + dqp, true, 2)
    } else {
        (qp, qp, false, mode)
    }
}

impl EvceCtx {
    /// The search parameters this context holds.
    pub open spec fn range_of(&self, split: SplitMode, lw: int, lh: int, qp: int) -> (int, int, bool, int) {
        qp_range(
            self.cu_qp_delta_enabled_flag,
            self.dquant_flag,
            self.cu_qp_delta_area as int,
            self.qp as int,
            self.dqp as int,
            self.core.cu_qp_delta_code_mode as int,
            split,
            lw,
            lh,
            qp,
        )
    }

    /// Prunes the split-option set `split_allow` by the heuristics' `do_curr` and
    /// `do_split`, keeping at least one option.
    pub fn check_run_split(
        &self,
        log2_cuw: u8,
        log2_cuh: u8,
        cup: u16,
        next_split: bool,
        do_curr: bool,
        do_split: bool,
        split_allow: &mut Vec<bool>,
        boundary: bool,
        tree_cons: &TREE_CONS,
    )
        requires
            old(split_allow).len() == MAX_SPLIT_NUM,
        ensures
            final(split_allow)@ == run_split(old(split_allow)@, next_split, do_curr, do_split),
    {
        if !next_split {
            split_allow[0] = true;
            let mut i: usize = 1;
            while i < MAX_SPLIT_NUM
                invariant
                    1 <= i <= MAX_SPLIT_NUM,
                    split_allow.len() == MAX_SPLIT_NUM,
                    split_allow@[0],
                    forall|k: int| 1 <= k < i ==> !#[trigger] split_allow@[k],
                decreases MAX_SPLIT_NUM - i,
            {
                split_allow[i] = false;
                i += 1;
            }
            assert(split_allow@ =~= run_split(old(split_allow)@, next_split, do_curr, do_split));
            return;
        }
        let ghost a = split_allow@;
        split_allow[0] = do_curr;
        let mut num_run: usize = 0;
        let ghost mut wit: int = 0;
        let mut i: usize = 1;
        while i < MAX_SPLIT_NUM
            invariant
                1 <= i <= MAX_SPLIT_NUM,
                split_allow.len() == MAX_SPLIT_NUM,
                a.len() == MAX_SPLIT_NUM,
                split_allow@[0] == do_curr,
                forall|k: int| 1 <= k < i ==> #[trigger] split_allow@[k] == (do_split && a[k]),
                forall|k: int| i <= k < MAX_SPLIT_NUM ==> #[trigger] split_allow@[k] == a[k],
                num_run <= i,
                num_run == 0 ==> forall|k: int| 1 <= k < i ==> !#[trigger] split_allow@[k],
                num_run > 0 ==> 1 <= wit < i && split_allow@[wit],
            decreases MAX_SPLIT_NUM - i,
        {
            split_allow[i] = do_split && split_allow[i];
            if split_allow[i] {
                num_run += 1;
                proof {
                    wit = i as int;
                }
            }
            i += 1;
        }
        let ghost b = seq![do_curr, do_split && a[1], do_split && a[2], do_split && a[3], do_split && a[4], do_split && a[5]];
        assert(split_allow@[1] == b[1] && split_allow@[2] == b[2] && split_allow@[3] == b[3]
            && split_allow@[4] == b[4] && split_allow@[5] == b[5]);
        if num_run == 0 {
            split_allow[0] = true;
            assert(!any_split(b));
            assert(split_allow@ =~= b.update(0, true));
        } else {
            assert(any_split(b));
            assert(split_allow@ =~= b);
        }
    }

    /// The QP range of a node of `cuw` by `cuh` samples for `split_mode`, as
    /// `qp_range` says; records the new delta-QP signalling mode.
    pub fn get_min_max_qp(
        &mut self,
        min_qp: &mut u8,
        max_qp: &mut u8,
        is_dqp_set: &mut bool,
        split_mode: SplitMode,
        cuw: u16,
        cuh: u16,
        qp: u8,
        x0: u16,
        y0: u16,
    )
        requires
            old(self).wf(),
            is_side(cuw as int),
            is_side(cuh as int),
        ensures
            !old(self).cu_qp_delta_enabled_flag ==> *final(min_qp) == old(self).qp && *final(max_qp) == old(self).qp,
            ({
                let (lo, hi, set, mode) = old(self).range_of(split_mode, log2_side(cuw as int), log2_side(cuh as int), qp as int);
                &&& *final(min_qp) == lo
                &&& *final(max_qp) == hi
                &&& *final(is_dqp_set) == set
                &&& final(self).core.cu_qp_delta_code_mode == mode
            }),
            final(self).wf(),
            final(self).core.cu_data_best == old(self).core.cu_data_best,
            final(self).core.cu_data_temp == old(self).core.cu_data_temp,
            final(self).map_scu == old(self).map_scu,
            final(self).map_depth == old(self).map_depth,
            final(self).map_cu_mode == old(self).map_cu_mode,
            final(self).pic == old(self).pic,
            final(self).mode == old(self).mode,
            final(self).frame_same(old(self)),
            final(self).core.x_pel == old(self).core.x_pel,
            final(self).core.y_pel == old(self).core.y_pel,
    {
        *is_dqp_set = false;
        if !self.cu_qp_delta_enabled_flag {
            *min_qp = self.qp;
            *max_qp = self.qp;
        } else {
            if !self.dquant_flag {
                if split_mode != SplitMode::NO_SPLIT {
                    *min_qp = qp;
                    *max_qp = qp;
                } else {
                    *min_qp = self.qp;
                    *max_qp = self.qp + self.dqp;
                }
            } else {
                *min_qp = qp;
                *max_qp = qp;
                let lw = CONV_LOG2(cuw as usize);
                let lh = CONV_LOG2(cuh as usize);
                if split_mode == SplitMode::NO_SPLIT && lw + lh >= self.cu_qp_delta_area
                    && self.core.cu_qp_delta_code_mode != 2 {
                    self.core.cu_qp_delta_code_mode = 1;
                    *min_qp = self.qp;
                    *max_qp = self.qp + self.dqp;
                    if lw == 7 || lh == 7 {
                        *is_dqp_set = true;
                        self.core.cu_qp_delta_code_mode = 2;
                    } else {
                        *is_dqp_set = false;
                    }
                } else if ((lw + lh) as u16 == self.cu_qp_delta_area as u16 + 1) || (lw + lh
                    == self.cu_qp_delta_area && self.core.cu_qp_delta_code_mode != 2) {
                    self.core.cu_qp_delta_code_mode = 2;
                    *is_dqp_set = true;
                    *min_qp = self.qp;
                    *max_qp = self.qp + self.dqp;
                }
            }
        }
    }

    /// Clears the packed status and mode status of every minimal block of the node at
    /// (`x`, `y`) of `cuw` by `cuh` samples, clipped to the picture.
    pub fn clear_map_scu(&mut self, x: u16, y: u16, cuw: u16, cuh: u16)
        requires
            old(self).wf(),
            x < old(self).w,
            y < old(self).h,
        ensures
            final(self).wf(),
            ({
                let off = (y / 4) * old(self).w_scu + x / 4;
                let bw = (if x + cuw > old(self).w { old(self).w - x } else { cuw as int }) / 4;
                let bh = (if y + cuh > old(self).h { old(self).h - y } else { cuh as int }) / 4;
                &&& forall|k: int| 0 <= k < final(self).map_scu.len() ==> #[trigger] final(self).map_scu@[k]
                    == if in_rect(k, off, old(self).w_scu as int, bw, bh) { MCU(0) } else { old(self).map_scu@[k] }
                &&& forall|k: int| 0 <= k < final(self).map_cu_mode.len() ==> #[trigger] final(self).map_cu_mode@[k]
                    == if in_rect(k, off, old(self).w_scu as int, bw, bh) { MCU(0) } else { old(self).map_cu_mode@[k] }
            }),
            final(self).map_depth == old(self).map_depth,
            final(self).core == old(self).core,
            final(self).mode == old(self).mode,
            final(self).pic == old(self).pic,
            final(self).frame_same(old(self)),
    {
        let w = self.w as usize;
        let h = self.h as usize;
        let mut cw = cuw as usize;
        let mut ch = cuh as usize;
        if x as usize + cw > w {
            cw = w - x as usize;
        }
        if y as usize + ch > h {
            ch = h - y as usize;
        }
        let bw = cw / 4;
        let bh = ch / 4;
        let stride = self.w_scu as usize;
        let cx = x as usize / 4;
        let cy = y as usize / 4;
        proof {
            assert(cx + bw <= stride);
            assert(cy + bh <= self.h_scu);
            if bh > 0 {
                crate::cu_data::lemma_rect_in_grid(stride as int, self.h_scu as int, cx as int, cy as int, bw as int, bh as int);
            }
            assert(cy * stride + cx <= stride * self.h_scu) by (nonlinear_arith)
                requires
                    cx <= stride,
                    cy < self.h_scu,
            ;
        }
        let off = cy * stride + cx;
        fill_rect(&mut self.map_scu, MCU(0), off, stride, bw, bh);
        fill_rect(&mut self.map_cu_mode, MCU(0), off, stride, bw, bh);
    }
}

/// Availability word built from the neighbour flags, in the order they are tested.
pub open spec fn avail_word(le: bool, lo_le: bool, up: bool, up_le: bool, up_ri: bool, ri: bool, lo_ri: bool) -> u16 {
    let a0 = 0u16;
    let a1 = if le { a0 | 0x2u16 } else { a0 };
    let a2 = if lo_le { a1 | 0x80u16 } else { a1 };
    let a3 = if up { a2 | 0x1u16 } else { a2 };
    let a4 = if up_le { a3 | 0x20u16 } else { a3 };
    let a5 = if up_ri { a4 | 0x40u16 } else { a4 };
    let a6 = if ri { a5 | 0x8u16 } else { a5 };
    if lo_ri { a6 | 0x100u16 } else { a6 }
}

/// Each flag of the availability word reads back, and the word is zero only without
/// any neighbour.
pub proof fn lemma_avail_word(le: bool, lo_le: bool, up: bool, up_le: bool, up_ri: bool, ri: bool, lo_ri: bool)
    by (bit_vector)
    ensures
        (avail_word(le, lo_le, up, up_le, up_ri, ri, lo_ri) & 0x2u16 == 0x2u16) == le,
        (avail_word(le, lo_le, up, up_le, up_ri, ri, lo_ri) & 0x80u16 == 0x80u16) == lo_le,
        (avail_word(le, lo_le, up, up_le, up_ri, ri, lo_ri) & 0x1u16 == 0x1u16) == up,
        (avail_word(le, lo_le, up, up_le, up_ri, ri, lo_ri) & 0x20u16 == 0x20u16) == up_le,
        (avail_word(le, lo_le, up, up_le, up_ri, ri, lo_ri) & 0x40u16 == 0x40u16) == up_ri,
        (avail_word(le, lo_le, up, up_le, up_ri, ri, lo_ri) & 0x8u16 == 0x8u16) == ri,
        (avail_word(le, lo_le, up, up_le, up_ri, ri, lo_ri) & 0x100u16 == 0x100u16) == lo_ri,
        (avail_word(le, lo_le, up, up_le, up_ri, ri, lo_ri) != 0) == (le || lo_le || up || up_le
            || up_ri || ri || lo_ri),
{
}

/// Whether the minimal block at index `p` has a committed decision.
pub open spec fn coded(m: Seq<MCU>, p: int) -> bool {
    cod_of(m[p].0) == 1
}

/// Decided neighbours of the node of `scuw` by `scuh` minimal blocks at minimal-block
/// position (`x`, `y`) in a picture of `w` by `h` minimal blocks: left, below-left, above,
/// above-left, above-right, right, below-right, each inside the picture and coded.
pub open spec fn nbrs(m: Seq<MCU>, x: int, y: int, w: int, h: int, scuw: int, scuh: int) -> (bool, bool, bool, bool, bool, bool, bool) {
    let cup = y * w + x;
    let le = x > 0 && coded(m, cup - 1);
    let lo_le = le && y + scuh < h && coded(m, cup + scuh * w - 1);
    let up = y > 0 && coded(m, cup - w);
    let up_le = y > 0 && x > 0 && coded(m, cup - w - 1);
    let up_ri = y > 0 && x + scuw < w && coded(m, cup - w + scuw);
    let ri = x + scuw < w && coded(m, cup + scuw);
    let lo_ri = ri && y + scuh < h && coded(m, cup + scuh * w + scuw);
    (le, lo_le, up, up_le, up_ri, ri, lo_ri)
}

/// Availability word of the node's decided neighbours.
pub open spec fn avail_of(m: Seq<MCU>, x: int, y: int, w: int, h: int, scuw: int, scuh: int) -> u16 {
    let (le, lo_le, up, up_le, up_ri, ri, lo_ri) = nbrs(m, x, y, w, h, scuw, scuh);
    avail_word(le, lo_le, up, up_le, up_ri, ri, lo_ri)
}

/// Facts on minimal-block indices around a node inside a `w` by `h` grid.
proof fn lemma_nbr_index(x: int, y: int, w: int, h: int, scuw: int, scuh: int)
    requires
        0 <= x,
        0 <= y,
        1 <= scuw,
        1 <= scuh,
        x + scuw <= w,
        y + scuh <= h,
    ensures
        y * w + x + (scuh - 1) * w + scuw <= w * h,
        y > 0 ==> y * w + x >= w + x,
        y + scuh < h ==> y * w + x + scuh * w + scuw <= w * h,
        y + scuh < h && x + scuw < w ==> y * w + x + scuh * w + scuw < w * h,
        x + scuw < w ==> y * w + x + scuw < w * h,
        x + scuw < w ==> y * w + x + (scuh - 1) * w + scuw < w * h,
        y * w + x >= 0,
        (scuh - 1) * w >= 0,
{
    lemma_mul_inequality(y + scuh - 1, h - 1, w);
    assert(y * w + (scuh - 1) * w == (y + scuh - 1) * w) by (nonlinear_arith);
    assert((h - 1) * w + w == w * h) by (nonlinear_arith);
    assert((scuh - 1) * w >= 0) by (nonlinear_arith)
        requires
            1 <= scuh,
            0 <= w,
    ;
    assert(y * w >= 0) by (nonlinear_arith)
        requires
            0 <= y,
            0 <= w,
    ;
    if y > 0 {
        lemma_mul_inequality(1, y, w);
    }
    if y + scuh < h {
        lemma_mul_inequality(y + scuh, h - 1, w);
        assert(y * w + scuh * w == (y + scuh) * w) by (nonlinear_arith);
    }
}

/// Availability of the decided neighbours of the node of log2 size (`log2_cuw`,
/// `log2_cuh`) at minimal-block position (`x_scu`, `y_scu`), index `scup`.
pub fn evc_get_avail_block(
    x_scu: u16,
    y_scu: u16,
    w_scu: u16,
    h_scu: u16,
    scup: usize,
    log2_cuw: u8,
    log2_cuh: u8,
    map_scu: &Vec<MCU>,
) -> (avail: u16)
    requires
        MIN_CU_LOG2 <= log2_cuw <= MAX_CU_LOG2,
        MIN_CU_LOG2 <= log2_cuh <= MAX_CU_LOG2,
        x_scu + side(log2_cuw - 2) <= w_scu,
        y_scu + side(log2_cuh - 2) <= h_scu,
        scup == y_scu * w_scu + x_scu,
        map_scu.len() == w_scu * h_scu,
    ensures
        avail == avail_of(map_scu@, x_scu as int, y_scu as int, w_scu as int, h_scu as int, side(log2_cuw - 2), side(log2_cuh - 2)),
{
    let scuw = side_of(log2_cuw - 2);
    let scuh = side_of(log2_cuh - 2);
    let w = w_scu as usize;
    let h = h_scu as usize;
    let x = x_scu as usize;
    let y = y_scu as usize;
    proof {
        lemma_nbr_index(x as int, y as int, w as int, h as int, scuw as int, scuh as int);
    }
    let mut avail: u16 = 0;
    let le = x > 0 && map_scu[scup - 1].GET_COD() == 1;
    if le {
        SET_AVAIL(&mut avail, AVAIL_LE);
    }
    let lo_le = le && y + scuh < h && map_scu[scup + scuh * w - 1].GET_COD() == 1;
    if lo_le {
        SET_AVAIL(&mut avail, AVAIL_LO_LE);
    }
    let up = y > 0 && map_scu[scup - w].GET_COD() == 1;
    if up {
        SET_AVAIL(&mut avail, AVAIL_UP);
    }
    let up_le = y > 0 && x > 0 && map_scu[scup - w - 1].GET_COD() == 1;
    if up_le {
        SET_AVAIL(&mut avail, AVAIL_UP_LE);
    }
    let up_ri = y > 0 && x + scuw < w && map_scu[scup - w + scuw].GET_COD() == 1;
    if up_ri {
        SET_AVAIL(&mut avail, AVAIL_UP_RI);
    }
    let ri = x + scuw < w && map_scu[scup + scuw].GET_COD() == 1;
    if ri {
        SET_AVAIL(&mut avail, AVAIL_RI);
    }
    let lo_ri = ri && y + scuh < h && map_scu[scup + scuh * w + scuw].GET_COD() == 1;
    if lo_ri {
        SET_AVAIL(&mut avail, AVAIL_LO_RI);
    }
    avail
}

/// Smallest of `acc` and the depths at `base`, `base + step`, ... (`k` of them), taken in
/// that order.
pub open spec fn depth_min(d: Seq<i8>, base: int, step: int, k: int, acc: int) -> int
    decreases k,
{
    if k <= 0 {
        acc
    } else {
        let m = depth_min(d, base, step, k - 1, acc);
        let v = d[base + (k - 1) * step] as int;
        if v < m {
            v
        } else {
            m
        }
    }
}

/// Largest of `acc` and the depths at `base`, `base + step`, ... (`k` of them).
pub open spec fn depth_max(d: Seq<i8>, base: int, step: int, k: int, acc: int) -> int
    decreases k,
{
    if k <= 0 {
        acc
    } else {
        let m = depth_max(d, base, step, k - 1, acc);
        let v = d[base + (k - 1) * step] as int;
        if v > m {
            v
        } else {
            m
        }
    }
}

/// Number of skip-coded blocks among those at `base`, `base + step`, ... (`k` of them).
pub open spec fn skip_cnt(m: Seq<MCU>, base: int, step: int, k: int) -> int
    decreases k,
{
    if k <= 0 {
        0
    } else {
        skip_cnt(m, base, step, k - 1) + if sf_of(m[base + (k - 1) * step].0) != 0 {
            1int
        } else {
            0int
        }
    }
}

/// Outcome of the neighbour heuristics.
pub struct NevInfo {
    /// Maximum depth bound.
    pub max_depth: int,
    /// Whether "no split" should be tried.
    pub do_curr: bool,
    /// Whether splitting should be tried.
    pub do_split: bool,
    /// Whether more than half of the examined neighbours are skip-coded.
    pub skip_major: bool,
}

/// Smallest and largest decided neighbour depth (starting from the deepest depth and from
/// 0), skip-coded neighbours and neighbours counted for the skip majority, of the node of
/// `scuw` by `scuh` minimal blocks at (`x`, `y`); see `nev_info`.
pub open spec fn nev_stats(m: Seq<MCU>, d: Seq<i8>, w: int, h: int, x: int, y: int, scuw: int, scuh: int) -> (int, int, int, int) {
    let cup = y * w + x;
    let (le, lo_le, up, up_le, up_ri, ri, lo_ri) = nbrs(m, x, y, w, h, scuw, scuh);
    let mn0 = MAX_CU_DEPTH as int;
    let mx0 = 0int;
    let mn1 = if up { depth_min(d, cup - w, 1, scuw, mn0) } else { mn0 };
    let mx1 = if up { depth_max(d, cup - w, 1, scuw, mx0) } else { mx0 };
    let s1 = if up { skip_cnt(m, cup - w, 1, scuw) } else { 0 };
    let n1 = if up { scuw } else { 0 };
    let mn2 = if up_ri { depth_min(d, cup - w + scuw, 1, 1, mn1) } else { mn1 };
    let mx2 = if up_ri { depth_max(d, cup - w + scuw, 1, 1, mx1) } else { mx1 };
    let mn3 = if le { depth_min(d, cup - 1, w, scuh, mn2) } else { mn2 };
    let mx3 = if le { depth_max(d, cup - 1, w, scuh, mx2) } else { mx2 };
    let s3 = if le { s1 + skip_cnt(m, cup - 1, w, scuh) } else { s1 };
    let n3 = if le { n1 + scuh } else { n1 };
    let mn4 = if lo_le { depth_min(d, cup + scuh * w - 1, 1, 1, mn3) } else { mn3 };
    let mx4 = if lo_le { depth_max(d, cup + scuh * w - 1, 1, 1, mx3) } else { mx3 };
    let mn5 = if up_le { depth_min(d, cup - w - 1, 1, 1, mn4) } else { mn4 };
    let mx5 = if up_le { depth_max(d, cup - w - 1, 1, 1, mx4) } else { mx4 };
    let mn6 = if ri { depth_min(d, cup + scuw, w, scuh, mn5) } else { mn5 };
    let mx6 = if ri { depth_max(d, cup + scuw, w, scuh, mx5) } else { mx5 };
    let s6 = if ri { s3 + skip_cnt(m, cup + scuw, w, scuh) } else { s3 };
    let n6 = if ri { n3 + scuh } else { n3 };
    let mn7 = if lo_ri { depth_min(d, cup + scuh * w + scuw, 1, 1, mn6) } else { mn6 };
    let mx7 = if lo_ri { depth_max(d, cup + scuh * w + scuw, 1, 1, mx6) } else { mx6 };
    (mn7, mx7, s6, n6)
}

/// Neighbour heuristics of the node of log2 size (`lw`, `lh`) at depth `cud` whose first
/// minimal block is (`x`, `y`), over the packed-status map `m` and depth map `d` of a
/// picture `w` minimal blocks wide and `h` high. Depths are gathered from the row above
/// (and the block above-right), the column to the left (and below-left), the block
/// above-left, and the column to the right (and below-right), each where decided. With a
/// decided neighbour: "no split" is dropped when the node's depth is below the smallest
/// such depth minus one (unless the node is minimal), and splitting is dropped when the
/// depth exceeds the largest plus one and "no split" is kept. The skip majority counts the
/// row above and the columns left and right, and is never set in an intra slice.
pub open spec fn nev_info(m: Seq<MCU>, d: Seq<i8>, w: int, h: int, slice_intra: bool, x: int, y: int, lw: int, lh: int, cud: int) -> NevInfo {
    let scuw = side(lw - 2);
    let scuh = side(lh - 2);
    let (le, lo_le, up, up_le, up_ri, ri, lo_ri) = nbrs(m, x, y, w, h, scuw, scuh);
    let (mn7, mx7, s6, n6) = nev_stats(m, d, w, h, x, y, scuw, scuh);
    let any = le || lo_le || up || up_le || up_ri || ri || lo_ri;
    let do_curr = !(any && cud < mn7 - 1 && lw > MIN_CU_LOG2 && lh > MIN_CU_LOG2);
    let do_split = !(any && cud > mx7 + 1 && do_curr);
    NevInfo {
        max_depth: if any { mx7 } else { MAX_CU_DEPTH as int },
        do_curr,
        do_split,
        skip_major: !slice_intra && s6 > n6 / 2,
    }
}

impl EvceCtx {
    /// The neighbour heuristics of the node, over this context's maps.
    pub open spec fn nev_of(&self, x0: int, y0: int, lw: int, lh: int, cud: int) -> NevInfo {
        nev_info(self.map_scu@, self.map_depth@, self.w_scu as int, self.h_scu as int, self.slice_intra, x0 / 4, y0 / 4, lw, lh, cud)
    }
}

/// Running minimum, maximum and skip count over `k` blocks from `base` with `step`.
fn scan_blocks(
    d: &Vec<i8>,
    m: &Vec<MCU>,
    base: usize,
    step: usize,
    k: usize,
    mn: i8,
    mx: i8,
) -> (r: (i8, i8, u32))
    requires
        k >= 1,
        k <= 16,
        base + (k - 1) * step < d.len(),
        d.len() == m.len(),
    ensures
        r.0 as int == depth_min(d@, base as int, step as int, k as int, mn as int),
        r.1 as int == depth_max(d@, base as int, step as int, k as int, mx as int),
        r.2 as int == skip_cnt(m@, base as int, step as int, k as int),
        r.2 <= k,
{
    let mut i: usize = 0;
    let mut lo = mn;
    let mut hi = mx;
    let mut cnt: u32 = 0;
    while i < k
        invariant
            i <= k,
            k <= 16,
            base + (k - 1) * step < d.len(),
            d.len() == m.len(),
            lo as int == depth_min(d@, base as int, step as int, i as int, mn as int),
            hi as int == depth_max(d@, base as int, step as int, i as int, mx as int),
            cnt as int == skip_cnt(m@, base as int, step as int, i as int),
            cnt <= i,
        decreases k - i,
    {
        proof {
            lemma_mul_inequality(i as int, (k - 1) as int, step as int);
        }
        let pos = base + i * step;
        let v = d[pos];
        lo = if v < lo {
            v
        } else {
            lo
        };
        hi = if v > hi {
            v
        } else {
            hi
        };
        if m[pos].GET_SF() != 0 {
            cnt += 1;
        }
        i += 1;
    }
    (lo, hi, cnt)
}

impl EvceCtx {
    /// The neighbour statistics of `nev_stats`, given the node's availability word.
    #[verifier::rlimit(40)]
    fn nev_scan(&self, x_scu: usize, y_scu: usize, scuw: usize, scuh: usize, avail_cu: u16) -> (r: (i8, i8, u32, u32))
        requires
            self.wf(),
            1 <= scuw <= 16,
            1 <= scuh <= 16,
            x_scu + scuw <= self.w_scu,
            y_scu + scuh <= self.h_scu,
            avail_cu == avail_of(self.map_scu@, x_scu as int, y_scu as int, self.w_scu as int, self.h_scu as int, scuw as int, scuh as int),
        ensures
            ({
                let (mn, mx, sc, nc) = nev_stats(self.map_scu@, self.map_depth@, self.w_scu as int, self.h_scu as int, x_scu as int, y_scu as int, scuw as int, scuh as int);
                r.0 as int == mn && r.1 as int == mx && r.2 as int == sc && r.3 as int == nc
            }),
    {
        let w = self.w_scu as usize;
        let h = self.h_scu as usize;
        proof {
            lemma_nbr_index(x_scu as int, y_scu as int, w as int, h as int, scuw as int, scuh as int);
            let nb = nbrs(self.map_scu@, x_scu as int, y_scu as int, w as int, h as int, scuw as int, scuh as int);
            lemma_avail_word(nb.0, nb.1, nb.2, nb.3, nb.4, nb.5, nb.6);
        }
        let cup = y_scu * w + x_scu;
        let mut nbr_map_skipcnt: u32 = 0;
        let mut nbr_map_cnt: u32 = 0;
        let mut min_depth: i8 = MAX_CU_DEPTH as i8;
        let mut max_depth: i8 = 0;
        let d = &self.map_depth;
        let m = &self.map_scu;
        if IS_AVAIL(avail_cu, AVAIL_UP) {
            let (a, b, c) = scan_blocks(d, m, cup - w, 1, scuw, min_depth, max_depth);
            min_depth = a;
            max_depth = b;
            nbr_map_skipcnt += c;
            nbr_map_cnt += scuw as u32;
        }
        if IS_AVAIL(avail_cu, AVAIL_UP_RI) {
            let (a, b, _) = scan_blocks(d, m, cup - w + scuw, 1, 1, min_depth, max_depth);
            min_depth = a;
            max_depth = b;
        }
        if IS_AVAIL(avail_cu, AVAIL_LE) {
            let (a, b, c) = scan_blocks(d, m, cup - 1, w, scuh, min_depth, max_depth);
            min_depth = a;
            max_depth = b;
            nbr_map_skipcnt += c;
            nbr_map_cnt += scuh as u32;
        }
        if IS_AVAIL(avail_cu, AVAIL_LO_LE) {
            let (a, b, _) = scan_blocks(d, m, cup + scuh * w - 1, 1, 1, min_depth, max_depth);
            min_depth = a;
            max_depth = b;
        }
        if IS_AVAIL(avail_cu, AVAIL_UP_LE) {
            let (a, b, _) = scan_blocks(d, m, cup - w - 1, 1, 1, min_depth, max_depth);
            min_depth = a;
            max_depth = b;
        }
        if IS_AVAIL(avail_cu, AVAIL_RI) {
            let (a, b, c) = scan_blocks(d, m, cup + scuw, w, scuh, min_depth, max_depth);
            min_depth = a;
            max_depth = b;
            nbr_map_skipcnt += c;
            nbr_map_cnt += scuh as u32;
        }
        if IS_AVAIL(avail_cu, AVAIL_LO_RI) {
            let (a, b, _) = scan_blocks(d, m, cup + scuh * w + scuw, 1, 1, min_depth, max_depth);
            min_depth = a;
            max_depth = b;
        }
        (min_depth, max_depth, nbr_map_skipcnt, nbr_map_cnt)
    }
}

impl EvceCtx {
    /// Neighbour heuristics of the node at (`x0`, `y0`) of log2 size (`log2_cuw`,
    /// `log2_cuh`) at depth `cud`, which lies inside the picture: sets whether "no split"
    /// and splitting should be tried and the skip-majority flag, and returns the maximum
    /// depth bound, as `nev_info` says.
    pub fn check_nev_block(
        &self,
        x0: u16,
        y0: u16,
        log2_cuw: u8,
        log2_cuh: u8,
        do_curr: &mut bool,
        do_split: &mut bool,
        cud: u16,
        nbr_map_skip_flag: &mut bool,
    ) -> (r: i32)
        requires
            self.wf(),
            MIN_CU_LOG2 <= log2_cuw <= MAX_CU_LOG2,
            MIN_CU_LOG2 <= log2_cuh <= MAX_CU_LOG2,
            x0 + side(log2_cuw as int) <= self.w,
            y0 + side(log2_cuh as int) <= self.h,
        ensures
            ({
                let n = self.nev_of(x0 as int, y0 as int, log2_cuw as int, log2_cuh as int, cud as int);
                &&& r as int == n.max_depth
                &&& *final(do_curr) == n.do_curr
                &&& *final(do_split) == n.do_split
                &&& *final(nbr_map_skip_flag) == n.skip_major
            }),
    {
        let w = self.w_scu as usize;
        let h = self.h_scu as usize;
        let x_scu = (x0 / 4) as usize;
        let y_scu = (y0 / 4) as usize;
        let scuw = side_of(log2_cuw - 2);
        let scuh = side_of(log2_cuh - 2);
        proof {
            lemma_side(log2_cuw as int);
            lemma_side(log2_cuh as int);
            lemma_nbr_index(x_scu as int, y_scu as int, w as int, h as int, scuw as int, scuh as int);
        }
        let cup = y_scu * w + x_scu;
        let avail_cu = evc_get_avail_block(x_scu as u16, y_scu as u16, self.w_scu, self.h_scu, cup, log2_cuw, log2_cuh, &self.map_scu);
        let ghost nb = nbrs(self.map_scu@, x_scu as int, y_scu as int, w as int, h as int, scuw as int, scuh as int);
        proof {
            lemma_avail_word(nb.0, nb.1, nb.2, nb.3, nb.4, nb.5, nb.6);
        }
        let (min_depth, max_depth, nbr_map_skipcnt, nbr_map_cnt) = self.nev_scan(x_scu, y_scu, scuw, scuh, avail_cu);
        *do_curr = true;
        *do_split = true;
        let mut r: i32 = MAX_CU_DEPTH as i32;
        if avail_cu != 0 {
            if (cud as i32) < min_depth as i32 - 1 {
                if log2_cuw > MIN_CU_LOG2 as u8 && log2_cuh > MIN_CU_LOG2 as u8 {
                    *do_curr = false;
                } else {
                    *do_curr = true;
                }
            }
            if cud as i32 > max_depth as i32 + 1 {
                *do_split = if *do_curr {
                    false
                } else {
                    true
                };
            }
            r = max_depth as i32;
        }
        *nbr_map_skip_flag = false;
        if !self.slice_intra && nbr_map_skipcnt > (nbr_map_cnt / 2) {
            *nbr_map_skip_flag = true;
        }
        r
    }
}

/// What the search reads and never changes: frame parameters and the frame-wide maps.
pub struct SearchEnv {
    pub w: int,
    pub h: int,
    pub w_scu: int,
    pub h_scu: int,
    pub slice_qp: int,
    pub dqp: int,
    pub enabled: bool,
    pub dquant: bool,
    pub area: int,
    pub slice_intra: bool,
    pub lambda: int,
    pub map_scu: Seq<MCU>,
    pub map_depth: Seq<i8>,
}

/// Outcome of the search at a node: committed cost, committed split, and the delta-QP
/// signalling mode after it.
pub struct TreeOut {
    pub cost: int,
    pub split: SplitMode,
    pub mode: int,
}

/// QP of the candidate number `dqp` of a range (the range's values wrapped into 0..52).
pub open spec fn cand_qp(qp: int, dqp: int) -> int {
    trunc_rem(qp + (dqp - qp) + 52, 52)
}

/// Rate cost of signalling `m` at the node, when luma is decided and the node can split.
pub open spec fn split_rate(e: SearchEnv, t: EvalTable, x: int, y: int, l: int, m: SplitMode, tc: TREE_CONS) -> int {
    if l > MIN_CU_LOG2 && luma_active(tc) {
        sat_mul(e.lambda, t.bits(x, y, l, m))
    } else {
        0
    }
}

/// Best cost over the "no split" candidates `q..=hi`, starting from `best`: a candidate
/// replaces the best only when strictly cheaper, so ties keep the earlier one.
pub open spec fn qp_scan(t: EvalTable, x: int, y: int, l: int, qp: int, rate: int, q: int, hi: int, best: int) -> int
    decreases hi + 1 - q,
{
    if q > hi {
        best
    } else {
        let c = sat_add(rate, t.cu_cost(x, y, l, cand_qp(qp, q)));
        qp_scan(t, x, y, l, qp, rate, q + 1, hi, if best > c { c } else { best })
    }
}

/// "No split" at the node: (best cost over its QP range, delta-QP mode after it).
pub open spec fn leaf(e: SearchEnv, t: EvalTable, x: int, y: int, l: int, qp: int, tc: TREE_CONS, mode: int) -> (int, int) {
    let rate = split_rate(e, t, x, y, l, SplitMode::NO_SPLIT, tc);
    let (lo, hi, set, m1) = qp_range(e.enabled, e.dquant, e.area, e.slice_qp, e.dqp, mode, SplitMode::NO_SPLIT, l, l, qp);
    let best = qp_scan(t, x, y, l, qp, rate, lo, hi, MAX_COST as int);
    (best, if set && m1 == 2 { 0 } else { m1 })
}

/// Candidate number (within `q..=hi`) that `qp_scan` ends with, starting from `best` found
/// at `pick`: a later candidate replaces it only when strictly cheaper.
pub open spec fn qp_scan_pick(t: EvalTable, x: int, y: int, l: int, qp: int, rate: int, q: int, hi: int, best: int, pick: int) -> int
    decreases hi + 1 - q,
{
    if q > hi {
        pick
    } else {
        let c = sat_add(rate, t.cu_cost(x, y, l, cand_qp(qp, q)));
        if best > c {
            qp_scan_pick(t, x, y, l, qp, rate, q + 1, hi, c, q)
        } else {
            qp_scan_pick(t, x, y, l, qp, rate, q + 1, hi, best, pick)
        }
    }
}

/// QP of the "no split" candidate the node commits: the first cheapest of its range.
pub open spec fn leaf_qp(e: SearchEnv, t: EvalTable, x: int, y: int, l: int, qp: int, tc: TREE_CONS, mode: int) -> int {
    let rate = split_rate(e, t, x, y, l, SplitMode::NO_SPLIT, tc);
    let (lo, hi, set, m1) = qp_range(e.enabled, e.dquant, e.area, e.slice_qp, e.dqp, mode, SplitMode::NO_SPLIT, l, l, qp);
    cand_qp(qp, qp_scan_pick(t, x, y, l, qp, rate, lo, hi, MAX_COST as int, lo))
}

/// Prediction mode recorded for a candidate.
pub open spec fn leaf_mode(e: CuEval) -> PredMode {
    if e.skip {
        PredMode::MODE_SKIP
    } else if e.intra {
        PredMode::MODE_INTRA
    } else {
        PredMode::MODE_INTER
    }
}

/// Packed status recorded for a candidate coded at `qp` in slice `sn`.
pub open spec fn leaf_word(e: CuEval, sn: u8, qp: u8) -> MCU {
    let w = with_if_cod_sn_qp(0, if e.intra { 1u32 } else { 0u32 }, sn as u32, qp);
    MCU(if e.skip { with_bits(w, 0x80_0000) } else { w })
}

/// Block `k` of the store holds the decision of candidate `e` coded at `qp` at depth `cud`,
/// on the planes the constraint decides, with the intra directions reset for the candidate.
pub open spec fn leaf_block(b: EvceCUData, k: int, e: CuEval, qp: int, cud: int, sn: u8, tc: TREE_CONS) -> bool {
    &&& luma_active(tc) ==> {
        &&& b.qp_y@[k] == qp
        &&& b.depth@[k] == cud as i8
        &&& b.skip_flag@[k] == e.skip
        &&& b.pred_mode@[k] == leaf_mode(e)
        &&& b.map_scu@[k] == leaf_word(e, sn, qp as u8)
        &&& b.ipm@[0]@[k] == IntraPredDir::IPD_DC_B
    }
    &&& chroma_active(tc) ==> {
        &&& b.qp_u@[k] == qp
        &&& b.qp_v@[k] == qp
        &&& b.ipm@[1]@[k] == IntraPredDir::IPD_DC_B
    }
}

/// Every block of the store holds the decision of candidate `e`, see `leaf_block`.
pub open spec fn leaf_snapshot(b: EvceCUData, e: CuEval, qp: int, cud: int, sn: u8, tc: TREE_CONS) -> bool {
    forall|k: int| 0 <= k < b.scu_cnt() ==> #[trigger] leaf_block(b, k, e, qp, cud, sn, tc)
}

/// Whether two slot sequences agree on every size from `from` on.
pub open spec fn slots_kept(a: Seq<EvceCUData>, b: Seq<EvceCUData>, from: int) -> bool {
    forall|j: int| from <= j < NUM_CU_SIZES ==> #[trigger] a[j] == b[j]
}

/// Position of part `k` (raster order) of the quad split of the node at (`x`, `y`) of
/// log2 size `l`.
pub open spec fn part_x(x: int, l: int, k: int) -> int {
    x + (k % 2) * side(l - 1)
}

pub open spec fn part_y(y: int, l: int, k: int) -> int {
    y + (k / 2) * side(l - 1)
}

/// The admissible split options at the node. A node crossing the picture edge may always
/// split further, since "no split" cannot be coded there.
pub open spec fn allowed(e: SearchEnv, x: int, y: int, l: int, cud: int, next_split: bool) -> Seq<bool> {
    let boundary = !(x + side(l) <= e.w && y + side(l) <= e.h);
    if l > MIN_CU_LOG2 {
        let n = nev_info(e.map_scu, e.map_depth, e.w_scu, e.h_scu, e.slice_intra, x / 4, y / 4, l, l, cud);
        let dc = if boundary { true } else { n.do_curr };
        let ds = if boundary { true } else { n.do_split };
        run_split(normative_split(), next_split || boundary, dc, ds)
    } else {
        min_size_split()
    }
}

/// Whether "no split" is evaluated at the node.
pub open spec fn curr_tried(e: SearchEnv, x: int, y: int, l: int, cud: int, next_split: bool) -> bool {
    x + side(l) <= e.w && y + side(l) <= e.h && allowed(e, x, y, l, cud, next_split)[0]
}

/// Whether the quad split is evaluated at the node.
pub open spec fn quad_tried(e: SearchEnv, x: int, y: int, l: int, cud: int, next_split: bool) -> bool {
    allowed(e, x, y, l, cud, next_split)[5]
}

/// Cost and delta-QP mode after the first `k` parts of the quad split, starting from the
/// split's own rate; parts outside the picture are skipped.
pub open spec fn parts(e: SearchEnv, t: EvalTable, x: int, y: int, l: int, cud: int, qp: int, tc: TREE_CONS, mode: int, k: int) -> (int, int)
    decreases l, k,
{
    if k <= 0 || l <= MIN_CU_LOG2 {
        (split_rate(e, t, x, y, l, SplitMode::SPLIT_QUAD, tc), mode)
    } else {
        let (c, m) = parts(e, t, x, y, l, cud, qp, tc, mode, k - 1);
        let px = part_x(x, l, k - 1);
        let py = part_y(y, l, k - 1);
        if px < e.w && py < e.h {
            let r = tree(e, t, px, py, l - 1, cud + 1, true, qp, tc, m);
            (sat_add(c, r.cost), r.mode)
        } else {
            (c, m)
        }
    }
}

/// The search at the node at (`x`, `y`) of log2 size `l` and depth `cud`: "no split" over
/// its QP range when the node lies inside the picture and "no split" is admissible; the
/// quad split when admissible; the split wins when strictly cheaper or when "no split" was
/// not evaluated.
pub open spec fn tree(e: SearchEnv, t: EvalTable, x: int, y: int, l: int, cud: int, next_split: bool, qp: int, tc: TREE_CONS, mode: int) -> TreeOut
    decreases l, 5int,
{
    let cur = curr_tried(e, x, y, l, cud, next_split);
    let (cc, m1) = if cur { leaf(e, t, x, y, l, qp, tc, mode) } else { (MAX_COST as int, mode) };
    if quad_tried(e, x, y, l, cud, next_split) && l > MIN_CU_LOG2 {
        let (sc, m2) = parts(e, t, x, y, l, cud, qp, tc, m1, 4);
        if !cur || cc > sc {
            TreeOut { cost: sc, split: SplitMode::SPLIT_QUAD, mode: m2 }
        } else {
            TreeOut { cost: cc, split: SplitMode::NO_SPLIT, mode: m2 }
        }
    } else {
        TreeOut { cost: cc, split: SplitMode::NO_SPLIT, mode: m1 }
    }
}

/// Whether index `k` of a grid `s` blocks wide lies in the block rectangle of `bw` by `bh`
/// blocks whose first block is (`cx`, `cy`).
pub open spec fn in_blocks(k: int, s: int, cx: int, cy: int, bw: int, bh: int) -> bool {
    cx <= k % s < cx + bw && cy <= k / s < cy + bh
}

/// A rectangle given by its start index and stride is the same set as the one given by its
/// first block's coordinates.
pub proof fn lemma_in_rect_coords(k: int, s: int, cx: int, cy: int, bw: int, bh: int)
    requires
        0 <= k,
        0 < s,
        0 <= cx,
        0 <= cy,
        0 <= bw,
        cx + bw <= s,
    ensures
        in_rect(k, cy * s + cx, s, bw, bh) == in_blocks(k, s, cx, cy, bw, bh),
{
    let q = k / s;
    let r = k % s;
    lemma_fundamental_div_mod(k, s);
    lemma_mod_pos_bound(k, s);
    assert(k == q * s + r) by (nonlinear_arith)
        requires
            k == s * (k / s) + (k % s),
            q == k / s,
            r == k % s,
    ;
    let off = cy * s + cx;
    if k >= off {
        if r >= cx {
            assert(k - off == (q - cy) * s + (r - cx)) by (nonlinear_arith)
                requires
                    k == q * s + r,
                    off == cy * s + cx,
            ;
            lemma_fundamental_div_mod_converse(k - off, s, q - cy, r - cx);
            if q < cy {
                assert(q * s + r < cy * s + cx) by (nonlinear_arith)
                    requires
                        q < cy,
                        r < s,
                        0 <= cx,
                        0 < s,
                ;
            }
        } else {
            assert(k - off == (q - cy - 1) * s + (s + r - cx)) by (nonlinear_arith)
                requires
                    k == q * s + r,
                    off == cy * s + cx,
            ;
            lemma_fundamental_div_mod_converse(k - off, s, q - cy - 1, s + r - cx);
        }
    } else {
        if q >= cy && r >= cx {
            assert(q * s + r >= cy * s + cx) by (nonlinear_arith)
                requires
                    q >= cy,
                    r >= cx,
                    0 < s,
            ;
        }
    }
}

impl EvceCtx {
    /// What the search reads: frame parameters and frame-wide maps.
    pub open spec fn env(&self) -> SearchEnv {
        SearchEnv {
            w: self.w as int,
            h: self.h as int,
            w_scu: self.w_scu as int,
            h_scu: self.h_scu as int,
            slice_qp: self.qp as int,
            dqp: self.dqp as int,
            enabled: self.cu_qp_delta_enabled_flag,
            dquant: self.dquant_flag,
            area: self.cu_qp_delta_area as int,
            slice_intra: self.slice_intra,
            lambda: self.lambda as int,
            map_scu: self.map_scu@,
            map_depth: self.map_depth@,
        }
    }

    /// What the search leaves at the node at (`x`, `y`) of log2 size `l`, for the outcome
    /// `tree` gives: the committed split in every minimal block of the node's (depth, square)
    /// entry of the best store of its size; with the quad split, that store equal to the
    /// merged candidate store on the decided planes (split decisions from the node's depth
    /// on included); the mode history taken from the store's first block when luma is
    /// decided; the store's samples in the reference picture when the node lies inside the
    /// picture; the quad split at every node crossing the picture edge; and, when "no split"
    /// wins, that store holding the first cheapest QP candidate's decision.
    #[verifier::opaque]
    pub open spec fn committed(&self, t: &EvalTable, x: int, y: int, l: int, cud: int, next_split: bool, qp: int, tc: TREE_CONS, mode: int) -> bool {
        let o = tree(self.env(), *t, x, y, l, cud, next_split, qp, tc, mode);
        let b = self.core.cu_data_best@[l - 2];
        let tt = self.core.cu_data_temp@[l - 2];
        let e = cud * NUM_BLOCK_SHAPE + SQUARE;
        let inside = x + side(l) <= self.w && y + side(l) <= self.h;
        &&& (forall|k: int| 0 <= k < b.scu_cnt() ==> #[trigger] b.split_mode@[e]@[k] == o.split)
        &&& o.split == SplitMode::SPLIT_QUAD ==> {
            &&& luma_active(tc) ==> b.luma_attrs_match(&tt) && (forall|f: int|
                0 <= f && e - SQUARE <= f < NUM_SPLIT_ENTRIES && f != e ==> #[trigger] b.split_mode@[f]@ == tt.split_mode@[f]@)
            &&& chroma_active(tc) ==> b.chroma_match(&tt)
        }
        &&& luma_active(tc) ==> self.mode.mv == b.mv@[0] && self.mode.refi == b.refi@[0] && self.mode.mvd == b.mvd@[0]
            && self.mode.cu_mode == MCU(pred_mode_code(b.pred_mode@[0]))
        &&& inside ==> (self.pic matches Some(p) ==> pic_shows(p, b, x, y, l, tc))
        &&& !inside && l > MIN_CU_LOG2 ==> o.split == SplitMode::SPLIT_QUAD
        &&& o.split == SplitMode::NO_SPLIT && curr_tried(self.env(), x, y, l, cud, next_split)
            && leaf(self.env(), *t, x, y, l, qp, tc, mode).0 < MAX_COST ==> ({
            let q = leaf_qp(self.env(), *t, x, y, l, qp, tc, mode);
            t.cu_entry(x, y, l, q) matches Some(e) && leaf_snapshot(b, e, q, cud, self.slice_num, tc)
        })
    }

    /// Side of the largest coding block.
    pub open spec fn lcu_size(&self) -> int {
        side(self.log2_max_cuwh as int)
    }

    /// Side of the node at `x` of side `n`, clipped to the picture width.
    pub open spec fn clip_w(&self, x: int, n: int) -> int {
        if x + n > self.w { self.w - x } else { n }
    }

    /// Side of the node at `y` of side `n`, clipped to the picture height.
    pub open spec fn clip_h(&self, y: int, n: int) -> int {
        if y + n > self.h { self.h - y } else { n }
    }

    /// Whether a map index lies in the current largest coding block, clipped to the picture.
    pub open spec fn in_lcu(&self, k: int) -> bool {
        in_blocks(
            k,
            self.w_scu as int,
            self.core.x_pel as int / 4,
            self.core.y_pel as int / 4,
            self.clip_w(self.core.x_pel as int, self.lcu_size()) / 4,
            self.clip_h(self.core.y_pel as int, self.lcu_size()) / 4,
        )
    }

    /// Every minimal block of the current largest coding block is undecided in both maps.
    pub open spec fn lcu_clear(&self) -> bool {
        forall|k: int|
            0 <= k < self.map_scu.len() && #[trigger] self.in_lcu(k) ==> self.map_scu@[k] == MCU(0)
                && self.map_cu_mode@[k] == MCU(0)
    }

    /// The node at (`x`, `y`) of log2 size `l` starts inside the picture and lies inside the
    /// current largest coding block, on the block grid.
    pub open spec fn node_ok(&self, x: int, y: int, l: int) -> bool {
        &&& MIN_CU_LOG2 <= l <= self.log2_max_cuwh
        &&& x % 4 == 0 && y % 4 == 0
        &&& x < self.w && y < self.h
        &&& self.core.x_pel % 4 == 0 && self.core.y_pel % 4 == 0
        &&& self.core.x_pel <= x && x + side(l) <= self.core.x_pel + self.lcu_size()
        &&& self.core.y_pel <= y && y + side(l) <= self.core.y_pel + self.lcu_size()
    }

    /// Clearing the maps of a node of the current largest coding block changes nothing
    /// while that block is undecided.
    fn clear_node_maps(&mut self, x0: u16, y0: u16, cuw: u16)
        requires
            old(self).wf(),
            old(self).lcu_clear(),
            old(self).node_ok(x0 as int, y0 as int, log2_side(cuw as int)),
            is_side(cuw as int),
            cuw >= 4,
        ensures
            final(self).map_scu@ == old(self).map_scu@,
            final(self).map_cu_mode@ == old(self).map_cu_mode@,
            final(self).map_depth == old(self).map_depth,
            final(self).core == old(self).core,
            final(self).mode == old(self).mode,
            final(self).pic == old(self).pic,
            final(self).frame_same(old(self)),
            final(self).wf(),
    {
        let ghost o = *self;
        proof {
            lemma_side(log2_side(cuw as int));
            lemma_side(self.log2_max_cuwh as int);
        }
        self.clear_map_scu(x0, y0, cuw, cuw);
        proof {
            let s = o.w_scu as int;
            let cx = x0 as int / 4;
            let cy = y0 as int / 4;
            let bw = o.clip_w(x0 as int, cuw as int) / 4;
            let bh = o.clip_h(y0 as int, cuw as int) / 4;
            assert forall|k: int| 0 <= k < self.map_scu.len() implies #[trigger] self.map_scu@[k] == o.map_scu@[k] by {
                lemma_in_rect_coords(k, s, cx, cy, bw, bh);
                if in_blocks(k, s, cx, cy, bw, bh) {
                    assert(o.in_lcu(k));
                }
            }
            assert forall|k: int| 0 <= k < self.map_cu_mode.len() implies #[trigger] self.map_cu_mode@[k] == o.map_cu_mode@[k] by {
                lemma_in_rect_coords(k, s, cx, cy, bw, bh);
                if in_blocks(k, s, cx, cy, bw, bh) {
                    assert(o.in_lcu(k));
                }
            }
            assert(self.map_scu@ =~= o.map_scu@);
            assert(self.map_cu_mode@ =~= o.map_cu_mode@);
        }
    }
}

/// The current largest coding block stays undecided while the maps and its position stay.
pub proof fn lemma_lcu_clear_kept(a: &EvceCtx, b: &EvceCtx)
    requires
        a.lcu_clear(),
        b.search_same(a),
    ensures
        b.lcu_clear(),
{
    assert forall|k: int| 0 <= k < b.map_scu.len() && #[trigger] b.in_lcu(k) implies b.map_scu@[k] == MCU(0)
        && b.map_cu_mode@[k] == MCU(0) by {
        assert(a.in_lcu(k));
        assert(a.map_scu@[k] == b.map_scu@[k]);
        assert(a.map_cu_mode@[k] == b.map_cu_mode@[k]);
    }
}

/// Records a "no split" candidate's decision in every minimal block of a store: QP,
/// depth, skip flag, prediction mode and packed status (coded, intra flag, slice, QP, skip).
pub fn fill_leaf(cu: &mut EvceCUData, qp: u8, cud: u16, e: CuEval, sn: u8)
    requires
        old(cu).wf(),
        qp <= 127,
        cud <= 127,
    ensures
        final(cu).wf(),
        final(cu).log2_cuw == old(cu).log2_cuw,
        final(cu).log2_cuh == old(cu).log2_cuh,
        forall|b: int| 0 <= b < final(cu).scu_cnt() ==> #[trigger] final(cu).qp_y@[b] == qp && final(cu).qp_u@[b] == qp
            && final(cu).qp_v@[b] == qp && final(cu).depth@[b] == cud as i8 && final(cu).skip_flag@[b] == e.skip,
        forall|b: int| 0 <= b < final(cu).scu_cnt() ==> #[trigger] final(cu).pred_mode@[b] == leaf_mode(e),
        forall|b: int| 0 <= b < final(cu).scu_cnt() ==> #[trigger] final(cu).map_scu@[b] == leaf_word(e, sn, qp),
        final(cu).ipm == old(cu).ipm,
{
    fill(&mut cu.qp_y, qp);
    fill(&mut cu.qp_u, qp);
    fill(&mut cu.qp_v, qp);
    fill(&mut cu.depth, cud as i8);
    fill(&mut cu.skip_flag, e.skip);
    let m = if e.skip {
        PredMode::MODE_SKIP
    } else if e.intra {
        PredMode::MODE_INTRA
    } else {
        PredMode::MODE_INTER
    };
    fill(&mut cu.pred_mode, m);
    let mut word = MCU(0);
    word.SET_IF_COD_SN_QP(if e.intra { 1 } else { 0 }, sn as u32, qp);
    if e.skip {
        word.SET_SF();
    }
    fill(&mut cu.map_scu, word);
}

/// Records the candidate `ev` coded at `cq` in the candidate store and makes that store the
/// best one.
fn record_leaf(best: &mut EvceCUData, temp: &mut EvceCUData, ev: Option<CuEval>, cq: u8, cud: u16, sn: u8, tc: TREE_CONS)
    requires
        old(best).wf(),
        old(temp).wf(),
        old(best).log2_cuw == old(temp).log2_cuw,
        old(best).log2_cuh == old(temp).log2_cuh,
        old(best).log2_cuw == old(best).log2_cuh,
        cq <= 127,
        cud <= 127,
        forall|k: int| 0 <= k < old(temp).scu_cnt() ==>
            #[trigger] old(temp).ipm@[0]@[k] == IntraPredDir::IPD_DC_B && old(temp).ipm@[1]@[k] == IntraPredDir::IPD_DC_B,
    ensures
        final(best).wf(),
        final(temp).wf(),
        final(best).log2_cuw == old(best).log2_cuw && final(best).log2_cuh == old(best).log2_cuh,
        final(temp).log2_cuw == old(temp).log2_cuw && final(temp).log2_cuh == old(temp).log2_cuh,
        ev matches Some(e) ==> leaf_snapshot(*final(best), e, cq as int, cud as int, sn, tc),
{
    proof {
        lemma_side(best.log2_cuw as int);
    }
    let ghost t0 = *temp;
    if let Some(e) = ev {
        fill_leaf(temp, cq, cud, e, sn);
    }
    let ghost before = *best;
    let l = best.log2_cuw;
    let _ = best.copy(temp, 0, 0, l, l, l, cud, &tc);
    proof {
        let b = *best;
        let tt = *temp;
        lemma_same_size_copy(&b, &before, &tt, cud as int);
        if ev is Some {
            let e = ev->0;
            assert forall|k: int| 0 <= k < b.scu_cnt() implies #[trigger] leaf_block(b, k, e, cq as int, cud as int, sn, tc) by {
                assert(tt.qp_y@[k] == cq);
                assert(tt.qp_u@[k] == cq);
                assert(tt.pred_mode@[k] == leaf_mode(e));
                assert(tt.map_scu@[k] == leaf_word(e, sn, cq));
                assert(t0.ipm@[0]@[k] == IntraPredDir::IPD_DC_B);
                assert(t0.ipm@[1]@[k] == IntraPredDir::IPD_DC_B);
            }
            assert(leaf_snapshot(b, e, cq as int, cud as int, sn, tc));
        }
    }
}

impl EvceCtx {
    /// What one step of the search keeps: frame parameters, maps and the position of the
    /// current largest coding block.
    pub open spec fn search_same(&self, o: &EvceCtx) -> bool {
        &&& self.frame_same(o)
        &&& self.map_scu@ == o.map_scu@
        &&& self.map_cu_mode@ == o.map_cu_mode@
        &&& self.map_depth@ == o.map_depth@
        &&& self.core.x_pel == o.core.x_pel
        &&& self.core.y_pel == o.core.y_pel
        &&& self.mode.mvp_idx == o.mode.mvp_idx
    }

    /// Makes a "no split" candidate the best store of its size: records its decision,
    /// commits its samples to the reference picture and feeds the mode history.
    #[verifier::rlimit(60)]
    fn commit_leaf(&mut self, ev: Option<CuEval>, x0: u16, y0: u16, l: u8, cud: u16, cq: u8, tc: TREE_CONS)
        requires
            old(self).wf(),
            old(self).node_ok(x0 as int, y0 as int, l as int),
            x0 + side(l as int) <= old(self).w,
            y0 + side(l as int) <= old(self).h,
            cud + l <= 8,
            cq <= 127,
            forall|k: int| 0 <= k < old(self).core.cu_data_temp@[l - 2].scu_cnt() ==>
                #[trigger] old(self).core.cu_data_temp@[l - 2].ipm@[0]@[k] == IntraPredDir::IPD_DC_B
                && old(self).core.cu_data_temp@[l - 2].ipm@[1]@[k] == IntraPredDir::IPD_DC_B,
        ensures
            final(self).wf(),
            final(self).search_same(old(self)),
            final(self).core.cu_qp_delta_code_mode == old(self).core.cu_qp_delta_code_mode,
            ev matches Some(e) ==> leaf_snapshot(final(self).core.cu_data_best@[l - 2], e, cq as int, cud as int, old(self).slice_num, tc),
            forall|j: int| 0 <= j < NUM_CU_SIZES && j != l - 2 ==> #[trigger] final(self).core.cu_data_best@[j] == old(self).core.cu_data_best@[j],
            forall|j: int| 0 <= j < NUM_CU_SIZES && j != l - 2 ==> #[trigger] final(self).core.cu_data_temp@[j] == old(self).core.cu_data_temp@[j],
    {
        let ghost o = *self;
        let i = (l - 2) as usize;
        let cuw = side_of(l);
        proof {
            lemma_side(l as int);
        }
        let sn = self.slice_num;
        record_leaf(&mut self.core.cu_data_best[i], &mut self.core.cu_data_temp[i], ev, cq, cud, sn, tc);
        let ghost snap = self.core.cu_data_best@[i as int];
        if let Some(planes) = &mut self.pic {
            self.core.cu_data_best[i].mode_cpy_rec_to_ref(x0 as usize, y0 as usize, cuw, cuw, planes, &tc);
        }
        if evc_check_luma(&tc) {
            self.mode.get_cu_pred_data(&self.core.cu_data_best[i], 0, 0, l, l, l, cud);
        }
        assert(self.core.cu_data_best@[i as int] == snap);
    }

    /// Evaluates "no split" at the node over its QP range: each candidate's cost is the
    /// split symbol's rate plus what prediction and residual coding reported; a strictly
    /// cheaper candidate becomes the best store of this size, is committed to the reference
    /// picture and feeds the mode history. Returns the best cost.
    #[verifier::rlimit(60)]
    fn eval_no_split(&mut self, t: &EvalTable, x0: u16, y0: u16, l: u8, cud: u16, qp: u8, tc: TREE_CONS) -> (r: u64)
        requires
            old(self).wf(),
            old(self).lcu_clear(),
            old(self).node_ok(x0 as int, y0 as int, l as int),
            x0 + side(l as int) <= old(self).w,
            y0 + side(l as int) <= old(self).h,
            cud + l <= 8,
            qp <= 51,
        ensures
            final(self).wf(),
            final(self).search_same(old(self)),
            ({
                let (c, m) = leaf(old(self).env(), *t, x0 as int, y0 as int, l as int, qp as int, tc, old(self).core.cu_qp_delta_code_mode as int);
                r == c && final(self).core.cu_qp_delta_code_mode == m
            }),
            r < MAX_COST ==> ({
                let q = leaf_qp(old(self).env(), *t, x0 as int, y0 as int, l as int, qp as int, tc, old(self).core.cu_qp_delta_code_mode as int);
                t.cu_entry(x0 as int, y0 as int, l as int, q) matches Some(e)
                    && leaf_snapshot(final(self).core.cu_data_best@[l - 2], e, q, cud as int, old(self).slice_num, tc)
            }),
            forall|j: int| 0 <= j < NUM_CU_SIZES && j != l - 2 ==> #[trigger] final(self).core.cu_data_best@[j] == old(self).core.cu_data_best@[j],
            forall|j: int| 0 <= j < NUM_CU_SIZES && j != l - 2 ==> #[trigger] final(self).core.cu_data_temp@[j] == old(self).core.cu_data_temp@[j],
    {
        let ghost o = *self;
        let i = (l - 2) as usize;
        let cuw = side_of(l);
        proof {
            lemma_side(l as int);
            lemma_side(o.log2_max_cuwh as int);
        }
        let mut cost_temp: u64 = 0;
        if l > MIN_CU_LOG2 as u8 && evc_check_luma(&tc) {
            let bits = t.lookup_bits(x0, y0, l, SplitMode::NO_SPLIT);
            cost_temp = cost_mul(self.lambda, bits);
        }
        let q0 = self.qp;
        self.core.cu_data_temp[i].init(l, l, q0, q0, q0);
        let mut min_qp: u8 = 0;
        let mut max_qp: u8 = 0;
        let mut is_dqp_set = false;
        self.get_min_max_qp(&mut min_qp, &mut max_qp, &mut is_dqp_set, SplitMode::NO_SPLIT, cuw as u16, cuw as u16, qp, x0, y0);
        let ghost m1 = self.core.cu_qp_delta_code_mode;
        proof {
            lemma_lcu_clear_kept(&o, self);
        }
        let mut cost_best: u64 = MAX_COST;
        let ghost mut pick: int = min_qp as int;
        let mut q: u16 = min_qp as u16;
        while q <= max_qp as u16
            invariant
                self.wf(),
                self.search_same(&o),
                o.lcu_clear(),
                self.lcu_clear(),
                self.node_ok(x0 as int, y0 as int, l as int),
                self.core.cu_qp_delta_code_mode == m1,
                i == l - 2,
                cuw == side(l as int),
                x0 + cuw <= self.w,
                y0 + cuw <= self.h,
                cud + l <= 8,
                qp <= 51,
                min_qp as u16 <= q,
                max_qp <= 102,
                q <= max_qp as u16 + 1,
                qp_scan(*t, x0 as int, y0 as int, l as int, qp as int, cost_temp as int, min_qp as int, max_qp as int, MAX_COST as int)
                    == qp_scan(*t, x0 as int, y0 as int, l as int, qp as int, cost_temp as int, q as int, max_qp as int, cost_best as int),
                qp_scan_pick(*t, x0 as int, y0 as int, l as int, qp as int, cost_temp as int, min_qp as int, max_qp as int, MAX_COST as int, min_qp as int)
                    == qp_scan_pick(*t, x0 as int, y0 as int, l as int, qp as int, cost_temp as int, q as int, max_qp as int, cost_best as int, pick),
                cost_best < MAX_COST ==> (t.cu_entry(x0 as int, y0 as int, l as int, cand_qp(qp as int, pick)) matches Some(e)
                    && leaf_snapshot(self.core.cu_data_best@[l - 2], e, cand_qp(qp as int, pick), cud as int, o.slice_num, tc)),
                forall|j: int| 0 <= j < NUM_CU_SIZES && j != l - 2 ==> #[trigger] self.core.cu_data_best@[j] == o.core.cu_data_best@[j],
                forall|j: int| 0 <= j < NUM_CU_SIZES && j != l - 2 ==> #[trigger] self.core.cu_data_temp@[j] == o.core.cu_data_temp@[j],
            decreases max_qp as u16 + 1 - q,
        {
            let cq = GET_QP(qp as i8, (q as i16 - qp as i16) as i8) as u8;
            self.core.qp = cq;
            let q1 = self.qp;
            self.core.cu_data_temp[i].init(l, l, q1, q1, q1);
            proof {
                lemma_lcu_clear_kept(&o, self);
            }
            self.clear_node_maps(x0, y0, cuw as u16);
            let ev = t.lookup_cu(x0, y0, l, cq);
            let c = match ev {
                Some(e) => cost_add(cost_temp, e.cost),
                None => cost_add(cost_temp, MAX_COST),
            };
            if cost_best > c {
                self.commit_leaf(ev, x0, y0, l, cud, cq, tc);
                cost_best = c;
                proof {
                    pick = q as int;
                }
            }
            proof {
                lemma_lcu_clear_kept(&o, self);
            }
            q += 1;
        }
        if is_dqp_set && self.core.cu_qp_delta_code_mode == 2 {
            self.core.cu_qp_delta_code_mode = 0;
        }
        cost_best
    }
}

/// Records split option `m` in every minimal block of split-decision table entry `e`.
fn commit_split(cu: &mut EvceCUData, e: usize, m: SplitMode)
    requires
        old(cu).wf(),
        e < NUM_SPLIT_ENTRIES,
    ensures
        final(cu).wf(),
        final(cu).log2_cuw == old(cu).log2_cuw,
        final(cu).log2_cuh == old(cu).log2_cuh,
        forall|b: int| 0 <= b < final(cu).scu_cnt() ==> #[trigger] final(cu).split_mode@[e as int]@[b] == m,
        forall|f: int| 0 <= f < NUM_SPLIT_ENTRIES && f != e ==> #[trigger] final(cu).split_mode@[f] == old(cu).split_mode@[f],
        final(cu).luma_attrs_match(old(cu)),
        final(cu).chroma_match(old(cu)),
{
    fill(&mut cu.split_mode[e], m);
}

impl EvceCtx {
    /// Makes the merged quad-split candidate the best store of the node's size.
    fn adopt_split(&mut self, l: u8, cud: u16, tc: TREE_CONS)
        requires
            old(self).wf(),
            MIN_CU_LOG2 <= l <= MAX_CU_LOG2,
        ensures
            final(self).wf(),
            final(self).search_same(old(self)),
            final(self).core.cu_qp_delta_code_mode == old(self).core.cu_qp_delta_code_mode,
            final(self).core.cu_data_temp == old(self).core.cu_data_temp,
            final(self).mode == old(self).mode,
            final(self).pic == old(self).pic,
            forall|j: int| 0 <= j < NUM_CU_SIZES && j != l - 2 ==> #[trigger] final(self).core.cu_data_best@[j] == old(self).core.cu_data_best@[j],
            ({
                let b = final(self).core.cu_data_best@[l - 2];
                let t = final(self).core.cu_data_temp@[l - 2];
                &&& luma_active(tc) ==> b.luma_attrs_match(&t) && (forall|e: int|
                    0 <= e && cud * NUM_BLOCK_SHAPE <= e < NUM_SPLIT_ENTRIES ==> #[trigger] b.split_mode@[e]@ == t.split_mode@[e]@)
                &&& chroma_active(tc) ==> b.chroma_match(&t)
            }),
    {
        let i = (l - 2) as usize;
        let ghost before = self.core.cu_data_best@[i as int];
        proof {
            lemma_side(l as int);
        }
        let _ = self.core.cu_data_best[i].copy(&self.core.cu_data_temp[i], 0, 0, l, l, l, cud, &tc);
        proof {
            lemma_same_size_copy(&self.core.cu_data_best@[i as int], &before, &self.core.cu_data_temp@[i as int], cud as int);
        }
    }

    /// Records the node's committed split in every block of its (depth, square) entry,
    /// takes the mode history from the committed store when luma is decided, and commits the
    /// store's samples to the reference picture when the node lies inside the picture.
    fn commit_node(&mut self, x0: u16, y0: u16, l: u8, cud: u16, split: SplitMode, tc: TREE_CONS)
        requires
            old(self).wf(),
            old(self).node_ok(x0 as int, y0 as int, l as int),
            cud + l <= 8,
        ensures
            final(self).wf(),
            final(self).search_same(old(self)),
            final(self).core.cu_qp_delta_code_mode == old(self).core.cu_qp_delta_code_mode,
            final(self).core.cu_data_temp == old(self).core.cu_data_temp,
            forall|j: int| 0 <= j < NUM_CU_SIZES && j != l - 2 ==> #[trigger] final(self).core.cu_data_best@[j] == old(self).core.cu_data_best@[j],
            ({
                let b = final(self).core.cu_data_best@[l - 2];
                let o = old(self).core.cu_data_best@[l - 2];
                let e = cud * NUM_BLOCK_SHAPE + SQUARE;
                &&& (forall|k: int| 0 <= k < b.scu_cnt() ==> #[trigger] b.split_mode@[e]@[k] == split)
                &&& (forall|f: int| 0 <= f < NUM_SPLIT_ENTRIES && f != e ==> #[trigger] b.split_mode@[f] == o.split_mode@[f])
                &&& b.luma_attrs_match(&o)
                &&& b.chroma_match(&o)
                &&& luma_active(tc) ==> final(self).mode.mv == b.mv@[0] && final(self).mode.refi == b.refi@[0]
                    && final(self).mode.mvd == b.mvd@[0] && final(self).mode.cu_mode == MCU(pred_mode_code(b.pred_mode@[0]))
                &&& !luma_active(tc) ==> final(self).mode == old(self).mode
                &&& x0 + side(l as int) <= old(self).w && y0 + side(l as int) <= old(self).h ==>
                    (final(self).pic matches Some(p) ==> pic_shows(p, b, x0 as int, y0 as int, l as int, tc))
                &&& !(x0 + side(l as int) <= old(self).w && y0 + side(l as int) <= old(self).h) ==> final(self).pic == old(self).pic
            }),
    {
        let i = (l - 2) as usize;
        let cuw = side_of(l);
        proof {
            lemma_side(l as int);
            lemma_side(self.log2_max_cuwh as int);
        }
        let e = cud as usize * NUM_BLOCK_SHAPE + SQUARE;
        commit_split(&mut self.core.cu_data_best[i], e, split);
        if evc_check_luma(&tc) {
            self.mode.get_cu_pred_data(&self.core.cu_data_best[i], 0, 0, l, l, l, cud);
        }
        if x0 as usize + cuw <= self.w as usize && y0 as usize + cuw <= self.h as usize {
            if let Some(planes) = &mut self.pic {
                self.core.cu_data_best[i].mode_cpy_rec_to_ref(x0 as usize, y0 as usize, cuw, cuw, planes, &tc);
            }
        }
    }
}

/// The reference picture shows the store's reconstruction of the node at (`x`, `y`) of log2
/// size `l` on the planes the constraint decides.
pub open spec fn pic_shows(p: [Plane; N_C], b: EvceCUData, x: int, y: int, l: int, tc: TREE_CONS) -> bool {
    &&& luma_active(tc) ==> plane_shows(p[0], b.reco@[0]@, x, y, side(l), side(l))
    &&& chroma_active(tc) ==> plane_shows(p[1], b.reco@[1]@, x / 2, y / 2, side(l) / 2, side(l) / 2)
        && plane_shows(p[2], b.reco@[2]@, x / 2, y / 2, side(l) / 2, side(l) / 2)
}

impl EvceCtx {
    /// Evaluates the quad split of the node: searches each part inside the picture one
    /// level deeper and merges its best store into this size's candidate store. Returns the
    /// split's rate plus the parts' costs.
    #[verifier::rlimit(80)]
    fn eval_quad(&mut self, t: &EvalTable, x0: u16, y0: u16, l: u8, cud: u16, qp: u8, tc: TREE_CONS) -> (r: u64)
        requires
            old(self).wf(),
            old(self).lcu_clear(),
            old(self).node_ok(x0 as int, y0 as int, l as int),
            l > MIN_CU_LOG2,
            cud + l <= 8,
            qp <= 51,
        ensures
            final(self).wf(),
            final(self).search_same(old(self)),
            ({
                let (c, m) = parts(old(self).env(), *t, x0 as int, y0 as int, l as int, cud as int, qp as int, tc, old(self).core.cu_qp_delta_code_mode as int, 4);
                r == c && final(self).core.cu_qp_delta_code_mode == m
            }),
            forall|j: int| l - 2 <= j < NUM_CU_SIZES ==> #[trigger] final(self).core.cu_data_best@[j] == old(self).core.cu_data_best@[j],
            forall|j: int| l - 2 < j < NUM_CU_SIZES ==> #[trigger] final(self).core.cu_data_temp@[j] == old(self).core.cu_data_temp@[j],
        decreases l, 0int,
    {
        let ghost o = *self;
        let i = (l - 2) as usize;
        let half = side_of(l - 1);
        proof {
            lemma_side(l as int);
        }
        let q0 = self.qp;
        self.core.cu_data_temp[i].init(l, l, q0, q0, q0);
        let mut cost: u64 = 0;
        if evc_check_luma(&tc) {
            let bits = t.lookup_bits(x0, y0, l, SplitMode::SPLIT_QUAD);
            cost = cost_mul(self.lambda, bits);
        }
        proof {
            lemma_lcu_clear_kept(&o, self);
        }
        let mut k: usize = 0;
        while k < 4
            invariant
                k <= 4,
                self.wf(),
                self.search_same(&o),
                o.lcu_clear(),
                o.node_ok(x0 as int, y0 as int, l as int),
                i == l - 2,
                half == side(l - 1),
                l > MIN_CU_LOG2,
                cud + l <= 8,
                qp <= 51,
                ({
                    let (c, m) = parts(o.env(), *t, x0 as int, y0 as int, l as int, cud as int, qp as int, tc, o.core.cu_qp_delta_code_mode as int, k as int);
                    cost == c && self.core.cu_qp_delta_code_mode == m
                }),
                forall|j: int| l - 2 <= j < NUM_CU_SIZES ==> #[trigger] self.core.cu_data_best@[j] == o.core.cu_data_best@[j],
                forall|j: int| l - 2 < j < NUM_CU_SIZES ==> #[trigger] self.core.cu_data_temp@[j] == o.core.cu_data_temp@[j],
            decreases 4 - k,
        {
            let px = x0 as usize + (k % 2) * half;
            let py = y0 as usize + (k / 2) * half;
            proof {
                lemma_lcu_clear_kept(&o, self);
                lemma_side(o.log2_max_cuwh as int);
                assert(self.env() == o.env());
                assert(px == part_x(x0 as int, l as int, k as int));
                assert(py == part_y(y0 as int, l as int, k as int));
                assert(px + half <= x0 + side(l as int));
                assert(py + half <= y0 + side(l as int));
            }
            if px < self.w as usize && py < self.h as usize {
                proof {
                    assert(self.node_ok(px as int, py as int, (l - 1) as int));
                }
                let c = self.mode_coding_tree(t, px as u16, py as u16, 0, l - 1, l - 1, cud + 1, true, qp, tc);
                cost = cost_add(cost, c);
                let _ = self.core.cu_data_temp[i].copy(&self.core.cu_data_best[i - 1], ((k % 2) * half) as u16, ((k / 2) * half) as u16, l - 1, l - 1, l, cud + 1, &tc);
            }
            k += 1;
        }
        cost
    }

    /// The admissible split options of the node, as `allowed` says.
    fn split_options(&self, x0: u16, y0: u16, cup: u16, l: u8, cud: u16, next_split: bool, tree_cons: &TREE_CONS) -> (r: Vec<bool>)
        requires
            self.wf(),
            self.node_ok(x0 as int, y0 as int, l as int),
        ensures
            r@ == allowed(self.env(), x0 as int, y0 as int, l as int, cud as int, next_split),
    {
        let cuw = side_of(l);
        proof {
            lemma_side(l as int);
            lemma_side(self.log2_max_cuwh as int);
        }
        let boundary = !(x0 as usize + cuw <= self.w as usize && y0 as usize + cuw <= self.h as usize);
        let mut split_allow: Vec<bool> = vec![false; MAX_SPLIT_NUM];
        if l > MIN_CU_LOG2 as u8 {
            evc_check_split_mode(&mut split_allow);
            let mut do_curr = true;
            let mut do_split = true;
            let mut skip = false;
            if !boundary {
                let _ = self.check_nev_block(x0, y0, l, l, &mut do_curr, &mut do_split, cud, &mut skip);
            }
            self.check_run_split(l, l, cup, next_split || boundary, do_curr, do_split, &mut split_allow, boundary, tree_cons);
        } else {
            split_allow[0] = true;
            split_allow[1] = false;
            split_allow[2] = false;
            split_allow[3] = false;
            split_allow[4] = false;
            split_allow[5] = false;
            assert(split_allow@ =~= min_size_split());
        }
        split_allow
    }

    /// Searches the node at (`x0`, `y0`) of log2 size `log2_cuw` (square) at depth `cud`:
    /// decides the admissible splits, evaluates "no split" and the quad split as `tree` says,
    /// commits the winner in this size's best store at the node's (depth, shape) entry and
    /// returns its cost.
    #[verifier::rlimit(100)]
    pub fn mode_coding_tree(
        &mut self,
        t: &EvalTable,
        x0: u16,
        y0: u16,
        cup: u16,
        log2_cuw: u8,
        log2_cuh: u8,
        cud: u16,
        next_split: bool,
        qp: u8,
        tree_cons: TREE_CONS,
    ) -> (r: u64)
        requires
            old(self).wf(),
            old(self).lcu_clear(),
            old(self).node_ok(x0 as int, y0 as int, log2_cuw as int),
            log2_cuh == log2_cuw,
            cud + log2_cuw <= 8,
            qp <= 51,
        ensures
            final(self).wf(),
            final(self).search_same(old(self)),
            ({
                let o = tree(old(self).env(), *t, x0 as int, y0 as int, log2_cuw as int, cud as int, next_split, qp as int, tree_cons, old(self).core.cu_qp_delta_code_mode as int);
                &&& r == o.cost
                &&& final(self).core.cu_qp_delta_code_mode == o.mode
            }),
            final(self).committed(t, x0 as int, y0 as int, log2_cuw as int, cud as int, next_split, qp as int, tree_cons, old(self).core.cu_qp_delta_code_mode as int),
            forall|j: int| log2_cuw - 2 < j < NUM_CU_SIZES ==> #[trigger] final(self).core.cu_data_best@[j] == old(self).core.cu_data_best@[j],
            forall|j: int| log2_cuw - 2 < j < NUM_CU_SIZES ==> #[trigger] final(self).core.cu_data_temp@[j] == old(self).core.cu_data_temp@[j],
        decreases log2_cuw, 1int,
    {
        let ghost o = *self;
        let l = log2_cuw;
        let i = (l - 2) as usize;
        let cuw = side_of(l);
        proof {
            lemma_side(l as int);
            lemma_side(o.log2_max_cuwh as int);
        }
        let boundary = !(x0 as usize + cuw <= self.w as usize && y0 as usize + cuw <= self.h as usize);
        let split_allow = self.split_options(x0, y0, cup, l, cud, next_split, &tree_cons);
        let mut cost_best: u64 = MAX_COST;
        let mut best_split = SplitMode::NO_SPLIT;
        let cur = !boundary && split_allow[0];
        if cur {
            cost_best = self.eval_no_split(t, x0, y0, l, cud, qp, tree_cons);
        }
        let ghost after_leaf = *self;
        proof {
            lemma_lcu_clear_kept(&o, self);
        }
        if split_allow[5] && l > MIN_CU_LOG2 as u8 {
            let sc = self.eval_quad(t, x0, y0, l, cud, qp, tree_cons);
            if !cur || cost_best > sc {
                self.adopt_split(l, cud, tree_cons);
                cost_best = sc;
                best_split = SplitMode::SPLIT_QUAD;
            }
        }
        let ghost pre = *self;
        self.commit_node(x0, y0, l, cud, best_split, tree_cons);
        proof {
            if l > MIN_CU_LOG2 && !(x0 + side(l as int) <= o.w && y0 + side(l as int) <= o.h) {
                lemma_boundary_splits(o.env(), *t, x0 as int, y0 as int, l as int, cud as int, next_split, qp as int, tree_cons, o.core.cu_qp_delta_code_mode as int);
            }
            assert(self.env() == o.env());
            let q = leaf_qp(o.env(), *t, x0 as int, y0 as int, l as int, qp as int, tree_cons, o.core.cu_qp_delta_code_mode as int);
            if best_split == SplitMode::NO_SPLIT && cur && cost_best < MAX_COST {
                let e = t.cu_entry(x0 as int, y0 as int, l as int, q)->0;
                let b = self.core.cu_data_best@[i as int];
                let pb = pre.core.cu_data_best@[i as int];
                assert(leaf_snapshot(after_leaf.core.cu_data_best@[i as int], e, q, cud as int, o.slice_num, tree_cons));
                assert(pb == after_leaf.core.cu_data_best@[i as int]);
                assert forall|k: int| 0 <= k < b.scu_cnt() implies #[trigger] leaf_block(b, k, e, q, cud as int, o.slice_num, tree_cons) by {
                    assert(leaf_block(pb, k, e, q, cud as int, o.slice_num, tree_cons));
                }
            }
            reveal(EvceCtx::committed);
        }
        cost_best
    }
}

impl EvceCtx {
    /// Decides the current largest coding block (at `core.x_pel`, `core.y_pel`): marks its
    /// minimal blocks undecided in both status maps (so no stale decision is read while it
    /// is searched), resets its stores, zeroes the motion predictor indices and differences
    /// of the mode history, and runs the search from its top node. Returns the committed
    /// cost; what the search commits is as `committed` says.
    pub fn mode_analyze_lcu(&mut self, t: &EvalTable) -> (r: u64)
        requires
            old(self).wf(),
            old(self).core.x_pel < old(self).w,
            old(self).core.y_pel < old(self).h,
            old(self).core.x_pel % 4 == 0,
            old(self).core.y_pel % 4 == 0,
        ensures
            final(self).wf(),
            final(self).frame_same(old(self)),
            final(self).core.x_pel == old(self).core.x_pel,
            final(self).core.y_pel == old(self).core.y_pel,
            final(self).map_depth@ == old(self).map_depth@,
            forall|k: int| 0 <= k < final(self).map_scu.len() ==> #[trigger] final(self).map_scu@[k]
                == if old(self).in_lcu(k) { MCU(0) } else { old(self).map_scu@[k] },
            ({
                let l = old(self).log2_max_cuwh as int;
                let o = tree(final(self).env(), *t, old(self).core.x_pel as int, old(self).core.y_pel as int, l, 0, true, old(self).qp as int, default_tree_cons(), old(self).core.cu_qp_delta_code_mode as int);
                &&& r == o.cost
                &&& final(self).core.cu_qp_delta_code_mode == o.mode
            }),
            final(self).committed(t, old(self).core.x_pel as int, old(self).core.y_pel as int, old(self).log2_max_cuwh as int, 0, true, old(self).qp as int, default_tree_cons(), old(self).core.cu_qp_delta_code_mode as int),
            forall|k: int| 0 <= k < final(self).map_cu_mode.len() ==> #[trigger] final(self).map_cu_mode@[k]
                == if old(self).in_lcu(k) { MCU(0) } else { old(self).map_cu_mode@[k] },
            final(self).mode.mvp_idx == [0u8; REFP_NUM],
    {
        let ghost o0 = *self;
        let l = self.log2_max_cuwh;
        let i = (l - 2) as usize;
        let q = self.qp;
        self.core.cu_data_best[i].init(l, l, q, q, q);
        self.core.cu_data_temp[i].init(l, l, q, q, q);
        self.mode.mvp_idx = [0u8; REFP_NUM];
        self.mode.mvd = [[0i16; MV_D]; REFP_NUM];
        let lcu = side_of(l);
        proof {
            lemma_side(l as int);
        }
        let x_pel = self.core.x_pel;
        let y_pel = self.core.y_pel;
        let ghost o1 = *self;
        self.clear_map_scu(x_pel, y_pel, lcu as u16, lcu as u16);
        proof {
            let s = o1.w_scu as int;
            let cx = x_pel as int / 4;
            let cy = y_pel as int / 4;
            let bw = o1.clip_w(x_pel as int, lcu as int) / 4;
            let bh = o1.clip_h(y_pel as int, lcu as int) / 4;
            assert forall|k: int| 0 <= k < self.map_scu.len() implies #[trigger] self.map_scu@[k]
                == if o0.in_lcu(k) { MCU(0) } else { o0.map_scu@[k] } by {
                lemma_in_rect_coords(k, s, cx, cy, bw, bh);
            }
            assert forall|k: int| 0 <= k < self.map_cu_mode.len() implies #[trigger] self.map_cu_mode@[k]
                == if o0.in_lcu(k) { MCU(0) } else { o0.map_cu_mode@[k] } by {
                lemma_in_rect_coords(k, s, cx, cy, bw, bh);
            }
            assert forall|k: int| 0 <= k < self.map_scu.len() && #[trigger] self.in_lcu(k) implies self.map_scu@[k] == MCU(0)
                && self.map_cu_mode@[k] == MCU(0) by {
                lemma_in_rect_coords(k, s, cx, cy, bw, bh);
                assert(o0.in_lcu(k));
            }
            assert(self.node_ok(x_pel as int, y_pel as int, l as int));
        }
        let r = self.mode_coding_tree(t, x_pel, y_pel, 0, l, l, 0, true, q, evc_get_default_tree_cons());
        r
    }
}

/// The scan's result is at most its starting best and at most every candidate it visits.
proof fn lemma_qp_scan_le(t: EvalTable, x: int, y: int, l: int, qp: int, rate: int, q: int, hi: int, best: int, j: int)
    ensures
        qp_scan(t, x, y, l, qp, rate, q, hi, best) <= best,
        q <= j <= hi ==> qp_scan(t, x, y, l, qp, rate, q, hi, best) <= sat_add(rate, t.cu_cost(x, y, l, cand_qp(qp, j))),
    decreases hi + 1 - q,
{
    if q <= hi {
        let c = sat_add(rate, t.cu_cost(x, y, l, cand_qp(qp, q)));
        let nb = if best > c { c } else { best };
        lemma_qp_scan_le(t, x, y, l, qp, rate, q + 1, hi, nb, j);
    }
}

/// Cost monotonicity of "no split": the committed "no split" cost at a node is at most the
/// cost of every QP candidate of its range (the split symbol's rate plus what prediction
/// and residual coding reported at that QP).
pub proof fn lemma_no_split_cost_minimal(e: SearchEnv, t: EvalTable, x: int, y: int, l: int, qp: int, tc: TREE_CONS, mode: int, q: int)
    requires
        ({
            let (lo, hi, set, m) = qp_range(e.enabled, e.dquant, e.area, e.slice_qp, e.dqp, mode, SplitMode::NO_SPLIT, l, l, qp);
            lo <= q <= hi
        }),
    ensures
        leaf(e, t, x, y, l, qp, tc, mode).0 <= sat_add(
            split_rate(e, t, x, y, l, SplitMode::NO_SPLIT, tc),
            t.cu_cost(x, y, l, cand_qp(qp, q)),
        ),
{
    let (lo, hi, set, m) = qp_range(e.enabled, e.dquant, e.area, e.slice_qp, e.dqp, mode, SplitMode::NO_SPLIT, l, l, qp);
    lemma_qp_scan_le(t, x, y, l, qp, split_rate(e, t, x, y, l, SplitMode::NO_SPLIT, tc), lo, hi, MAX_COST as int, q);
}

/// Cost monotonicity of the search: wherever "no split" is evaluated, the committed cost
/// at the node is at most the cost of each of its "no split" QP candidates, the first
/// (default) QP of the range among them.
pub proof fn lemma_tree_cost_minimal(e: SearchEnv, t: EvalTable, x: int, y: int, l: int, cud: int, next_split: bool, qp: int, tc: TREE_CONS, mode: int, q: int)
    requires
        curr_tried(e, x, y, l, cud, next_split),
        ({
            let (lo, hi, set, m) = qp_range(e.enabled, e.dquant, e.area, e.slice_qp, e.dqp, mode, SplitMode::NO_SPLIT, l, l, qp);
            lo <= q <= hi
        }),
    ensures
        tree(e, t, x, y, l, cud, next_split, qp, tc, mode).cost <= leaf(e, t, x, y, l, qp, tc, mode).0,
        tree(e, t, x, y, l, cud, next_split, qp, tc, mode).cost <= sat_add(
            split_rate(e, t, x, y, l, SplitMode::NO_SPLIT, tc),
            t.cu_cost(x, y, l, cand_qp(qp, q)),
        ),
{
    lemma_no_split_cost_minimal(e, t, x, y, l, qp, tc, mode, q);
}

/// Boundary behaviour: a node that crosses the right or bottom edge of the picture and is
/// larger than the minimal size commits the quad split, whatever the costs.
pub proof fn lemma_boundary_splits(e: SearchEnv, t: EvalTable, x: int, y: int, l: int, cud: int, next_split: bool, qp: int, tc: TREE_CONS, mode: int)
    requires
        !(x + side(l) <= e.w && y + side(l) <= e.h),
        MIN_CU_LOG2 < l,
    ensures
        tree(e, t, x, y, l, cud, next_split, qp, tc, mode).split == SplitMode::SPLIT_QUAD,
        !curr_tried(e, x, y, l, cud, next_split),
{
    let a = allowed(e, x, y, l, cud, next_split);
    assert(a[5]);
}

/// Determinism: the search's outcome at a node (committed cost, committed split and
/// delta-QP mode after it) depends only on the frame parameters, the frame-wide maps, the
/// evaluation table, the node and the incoming delta-QP mode; two contexts that agree on
/// these commit the same outcome.
pub proof fn lemma_search_deterministic(a: &EvceCtx, b: &EvceCtx, t: EvalTable, x: int, y: int, l: int, cud: int, next_split: bool, qp: int, tc: TREE_CONS)
    requires
        a.search_same(b),
        a.core.cu_qp_delta_code_mode == b.core.cu_qp_delta_code_mode,
    ensures
        tree(a.env(), t, x, y, l, cud, next_split, qp, tc, a.core.cu_qp_delta_code_mode as int)
            == tree(b.env(), t, x, y, l, cud, next_split, qp, tc, b.core.cu_qp_delta_code_mode as int),
{
    assert(a.env() == b.env());
}

/// Block `k` of the two stores records the same decision on the planes the constraint
/// decides.
pub open spec fn blocks_agree(ba: EvceCUData, bb: EvceCUData, k: int, tc: TREE_CONS) -> bool {
    &&& luma_active(tc) ==> ba.qp_y@[k] == bb.qp_y@[k] && ba.depth@[k] == bb.depth@[k]
        && ba.skip_flag@[k] == bb.skip_flag@[k] && ba.pred_mode@[k] == bb.pred_mode@[k]
        && ba.map_scu@[k] == bb.map_scu@[k] && ba.ipm@[0]@[k] == bb.ipm@[0]@[k]
    &&& chroma_active(tc) ==> ba.qp_u@[k] == bb.qp_u@[k] && ba.qp_v@[k] == bb.qp_v@[k]
        && ba.ipm@[1]@[k] == bb.ipm@[1]@[k]
}

/// Determinism of what the search commits: two searches of a node from contexts that agree
/// on the frame parameters and maps record the same split in every block of the node's
/// entry and, when "no split" wins, the same decision in every block of the best store.
pub proof fn lemma_commit_deterministic(a: &EvceCtx, b: &EvceCtx, t: &EvalTable, x: int, y: int, l: int, cud: int, next_split: bool, qp: int, tc: TREE_CONS, mode: int)
    requires
        a.search_same(b),
        a.committed(t, x, y, l, cud, next_split, qp, tc, mode),
        b.committed(t, x, y, l, cud, next_split, qp, tc, mode),
        a.core.cu_data_best@[l - 2].scu_cnt() == b.core.cu_data_best@[l - 2].scu_cnt(),
    ensures
        forall|k: int| 0 <= k < a.core.cu_data_best@[l - 2].scu_cnt() ==>
            #[trigger] a.core.cu_data_best@[l - 2].split_mode@[cud * NUM_BLOCK_SHAPE + SQUARE]@[k]
                == b.core.cu_data_best@[l - 2].split_mode@[cud * NUM_BLOCK_SHAPE + SQUARE]@[k],
        tree(a.env(), *t, x, y, l, cud, next_split, qp, tc, mode).split == SplitMode::NO_SPLIT
            && curr_tried(a.env(), x, y, l, cud, next_split)
            && leaf(a.env(), *t, x, y, l, qp, tc, mode).0 < MAX_COST ==> forall|k: int|
            0 <= k < a.core.cu_data_best@[l - 2].scu_cnt() ==>
                #[trigger] blocks_agree(a.core.cu_data_best@[l - 2], b.core.cu_data_best@[l - 2], k, tc),
{
    reveal(EvceCtx::committed);
    assert(a.env() == b.env());
    let o = tree(a.env(), *t, x, y, l, cud, next_split, qp, tc, mode);
    if o.split == SplitMode::NO_SPLIT && curr_tried(a.env(), x, y, l, cud, next_split)
        && leaf(a.env(), *t, x, y, l, qp, tc, mode).0 < MAX_COST {
        let q = leaf_qp(a.env(), *t, x, y, l, qp, tc, mode);
        let e = t.cu_entry(x, y, l, q)->0;
        assert forall|k: int| 0 <= k < a.core.cu_data_best@[l - 2].scu_cnt() implies
            #[trigger] blocks_agree(a.core.cu_data_best@[l - 2], b.core.cu_data_best@[l - 2], k, tc) by {
            assert(leaf_block(a.core.cu_data_best@[l - 2], k, e, q, cud, a.slice_num, tc));
            assert(leaf_block(b.core.cu_data_best@[l - 2], k, e, q, cud, b.slice_num, tc));
        }
    }
}

} // verus!
