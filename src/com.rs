//! Common definitions: sizes, neighbour availability flags, QP helpers, prediction
//! modes, the tree constraint and the split modes.
use vstd::prelude::*;

verus! {

/// Y (luma) plane.
pub const Y_C: usize = 0;
/// Cb plane.
pub const U_C: usize = 1;
/// Cr plane.
pub const V_C: usize = 2;
/// Number of colour planes.
pub const N_C: usize = 3;

/// Reference list 0 and 1, and their count.
pub const REFP_0: usize = 0;
pub const REFP_1: usize = 1;
pub const REFP_NUM: usize = 2;

/// Motion vector components.
pub const MV_X: usize = 0;
pub const MV_Y: usize = 1;
pub const MV_D: usize = 2;

/// Sample bit depth.
pub const BIT_DEPTH: usize = 10;

/// Log2 of the largest and of the smallest coding unit.
pub const MAX_CU_LOG2: usize = 6;
pub const MIN_CU_LOG2: usize = 2;
/// Side of the smallest coding unit (a minimal block).
pub const MIN_CU_SIZE: usize = 4;
/// Number of tree depths tracked in a split-decision table.
pub const NUM_CU_DEPTH: usize = 11;
/// Deepest tree depth.
pub const MAX_CU_DEPTH: usize = 10;
/// Block shapes tracked in a split-decision table; square blocks use `SQUARE`.
pub const NUM_BLOCK_SHAPE: usize = 5;
pub const SQUARE: usize = 2;
/// Size of the split-option sets (no split, four binary/ternary shapes, quad).
pub const MAX_SPLIT_NUM: usize = 6;

/// Neighbour availability bits.
pub const AVAIL_BIT_UP: u16 = 0;
pub const AVAIL_BIT_LE: u16 = 1;
pub const AVAIL_BIT_RI: u16 = 3;
pub const AVAIL_BIT_LO: u16 = 4;
pub const AVAIL_BIT_UP_LE: u16 = 5;
pub const AVAIL_BIT_UP_RI: u16 = 6;
pub const AVAIL_BIT_LO_LE: u16 = 7;
pub const AVAIL_BIT_LO_RI: u16 = 8;

/// Neighbour availability flags.
pub const AVAIL_UP: u16 = 0x1;
pub const AVAIL_LE: u16 = 0x2;
pub const AVAIL_RI: u16 = 0x8;
pub const AVAIL_LO: u16 = 0x10;
pub const AVAIL_UP_LE: u16 = 0x20;
pub const AVAIL_UP_RI: u16 = 0x40;
pub const AVAIL_LO_LE: u16 = 0x80;
pub const AVAIL_LO_RI: u16 = 0x100;

/// Errors of the library.
#[derive(Clone, Copy, Debug, PartialEq, Eq, Structural)]
pub enum EvcError {
    /// Picture or block dimensions that the search cannot work on.
    InvalidConfig,
    /// A broken internal condition.
    InvalidArgument,
}

/// `Ok` when `x` holds, else the error `r`.
#[inline]
pub fn evc_assert_rv(x: bool, r: EvcError) -> (res: Result<(), EvcError>)
    ensures
        res == (if x {
            Ok::<(), EvcError>(())
        } else {
            Err(r)
        }),
{
    if !x {
        return Err(r);
    }
    Ok(())
}

/// Whether a reference index names a reference picture.
#[inline]
pub fn REFI_IS_VALID(refi: i8) -> (r: bool)
    ensures
        r == (refi >= 0),
{
    refi >= 0
}

/// Minimal-block coordinate of a sample coordinate.
#[inline]
pub fn PEL2SCU(p: usize) -> (r: usize)
    ensures
        r == p / 4,
{
    assert(p >> 2usize == p / 4) by (bit_vector);
    p >> 2
}

/// Whether all the flags `pos` are set in `avail`.
#[inline]
pub fn IS_AVAIL(avail: u16, pos: u16) -> (r: bool)
    ensures
        r == ((avail & pos) == pos),
{
    (avail & pos) == pos
}

/// Sets the flags `pos`.
#[inline]
pub fn SET_AVAIL(avail: &mut u16, pos: u16)
    ensures
        *final(avail) == *old(avail) | pos,
{
    *avail |= pos;
}

/// Clears the flags `pos`.
#[inline]
pub fn REM_AVAIL(avail: &mut u16, pos: u16)
    ensures
        *final(avail) == *old(avail) & !pos,
{
    *avail &= !pos;
}

/// Whether bit number `bit` is set.
#[inline]
pub fn GET_AVAIL_FLAG(avail: u16, bit: u16) -> (r: bool)
    requires
        bit < 16,
    ensures
        r == ((avail >> bit) & 1 != 0),
{
    (avail >> bit) & 0x1 != 0
}

/// Remainder of a division that truncates toward zero.
pub open spec fn trunc_rem(a: int, m: int) -> int {
    if a >= 0 {
        a % m
    } else {
        -((-a) % m)
    }
}

/// QP offset by `dqp`, wrapped into the codec's 52 values
/// (a negative sum wraps toward zero, as integer remainder does).
#[inline]
pub fn GET_QP(qp: i8, dqp: i8) -> (r: i8)
    ensures
        r as int == trunc_rem(qp + dqp + 52, 52),
{
    let s: i16 = qp as i16 + dqp as i16 + 52;
    if s >= 0 {
        ((s as u16) % 52) as i8
    } else {
        let n: u16 = (-s) as u16;
        -((n % 52) as i8)
    }
}

/// Luma QP for the sample bit depth.
#[inline]
pub fn GET_LUMA_QP(qp: i8) -> (r: i8)
    requires
        qp <= 127 - 12,
    ensures
        r == qp + 6 * (BIT_DEPTH - 8),
{
    qp + 12
}

/// Prediction mode of a coding unit.
#[derive(Clone, Copy, Debug, PartialEq, Eq, Structural)]
pub enum PredMode {
    MODE_INTRA,
    MODE_INTER,
    MODE_SKIP,
    MODE_DIR,
    MODE_SKIP_MMVD,
    MODE_DIR_MMVD,
    MODE_IBC,
}

/// Number that codes a prediction mode.
pub open spec fn pred_mode_code(m: PredMode) -> u32 {
    match m {
        PredMode::MODE_INTRA => 0,
        PredMode::MODE_INTER => 1,
        PredMode::MODE_SKIP => 2,
        PredMode::MODE_DIR => 3,
        PredMode::MODE_SKIP_MMVD => 4,
        PredMode::MODE_DIR_MMVD => 5,
        PredMode::MODE_IBC => 6,
    }
}

impl PredMode {
    /// The number that codes this mode.
    pub fn code(&self) -> (r: u32)
        ensures
            r == pred_mode_code(*self),
    {
        match self {
            PredMode::MODE_INTRA => 0,
            PredMode::MODE_INTER => 1,
            PredMode::MODE_SKIP => 2,
            PredMode::MODE_DIR => 3,
            PredMode::MODE_SKIP_MMVD => 4,
            PredMode::MODE_DIR_MMVD => 5,
            PredMode::MODE_IBC => 6,
        }
    }
}

impl Default for PredMode {
    fn default() -> (r: PredMode)
        ensures
            r == PredMode::MODE_INTRA,
    {
        PredMode::MODE_INTRA
    }
}

/// Intra prediction direction.
#[derive(Clone, Copy, Debug, PartialEq, Eq, Structural)]
pub enum IntraPredDir {
    IPD_UNKNOWN,
    IPD_DC_B,
    IPD_HOR_B,
    IPD_VER_B,
    IPD_UL_B,
    IPD_UR_B,
    IPD_CNT_B,
}

impl Default for IntraPredDir {
    fn default() -> (r: IntraPredDir)
        ensures
            r == IntraPredDir::IPD_UNKNOWN,
    {
        IntraPredDir::IPD_UNKNOWN
    }
}

/// The direction coded by `val`.
pub open spec fn intra_dir_of(val: u8) -> IntraPredDir {
    if val == 0 {
        IntraPredDir::IPD_DC_B
    } else if val == 1 {
        IntraPredDir::IPD_HOR_B
    } else if val == 2 {
        IntraPredDir::IPD_VER_B
    } else if val == 3 {
        IntraPredDir::IPD_UL_B
    } else if val == 4 {
        IntraPredDir::IPD_UR_B
    } else if val == 5 {
        IntraPredDir::IPD_CNT_B
    } else {
        IntraPredDir::IPD_UNKNOWN
    }
}

impl From<u8> for IntraPredDir {
    fn from(val: u8) -> (r: IntraPredDir) {
        match val {
            0 => IntraPredDir::IPD_DC_B,
            1 => IntraPredDir::IPD_HOR_B,
            2 => IntraPredDir::IPD_VER_B,
            3 => IntraPredDir::IPD_UL_B,
            4 => IntraPredDir::IPD_UR_B,
            5 => IntraPredDir::IPD_CNT_B,
            _ => IntraPredDir::IPD_UNKNOWN,
        }
    }
}

impl vstd::std_specs::convert::FromSpecImpl<u8> for IntraPredDir {
    open spec fn obeys_from_spec() -> bool {
        true
    }

    open spec fn from_spec(v: u8) -> IntraPredDir {
        intra_dir_of(v)
    }
}

/// Colour planes decided at a tree node.
#[derive(Clone, Copy, Debug, PartialEq, Eq, Structural)]
pub enum TREE_TYPE {
    /// Luma and chroma together.
    TREE_LC,
    /// Luma only.
    TREE_L,
    /// Chroma only.
    TREE_C,
}

impl Default for TREE_TYPE {
    fn default() -> (r: TREE_TYPE)
        ensures
            r == TREE_TYPE::TREE_LC,
    {
        TREE_TYPE::TREE_LC
    }
}

/// Prediction family allowed at a tree node.
#[derive(Clone, Copy, Debug, PartialEq, Eq, Structural)]
pub enum MODE_CONS {
    eOnlyIntra,
    eOnlyInter,
    eAll,
}

impl Default for MODE_CONS {
    fn default() -> (r: MODE_CONS)
        ensures
            r == MODE_CONS::eOnlyIntra,
    {
        MODE_CONS::eOnlyIntra
    }
}

/// Tree constraint: which planes and which prediction family a node decides, and
/// whether this differs from the parent node.
#[derive(Clone, Copy, Debug, PartialEq, Eq, Structural)]
pub struct TREE_CONS {
    pub changed: bool,
    pub tree_type: TREE_TYPE,
    pub mode_cons: MODE_CONS,
}

/// Whether luma is decided under the constraint.
pub open spec fn luma_active(t: TREE_CONS) -> bool {
    t.tree_type != TREE_TYPE::TREE_C
}

/// Whether chroma is decided under the constraint.
pub open spec fn chroma_active(t: TREE_CONS) -> bool {
    t.tree_type != TREE_TYPE::TREE_L
}

/// Whether luma is decided under the constraint.
pub fn evc_check_luma(t: &TREE_CONS) -> (r: bool)
    ensures
        r == luma_active(*t),
{
    match t.tree_type {
        TREE_TYPE::TREE_C => false,
        _ => true,
    }
}

/// Whether chroma is decided under the constraint.
pub fn evc_check_chroma(t: &TREE_CONS) -> (r: bool)
    ensures
        r == chroma_active(*t),
{
    match t.tree_type {
        TREE_TYPE::TREE_L => false,
        _ => true,
    }
}

/// The constraint of a tree's root: both planes, any prediction, unchanged.
pub open spec fn default_tree_cons() -> TREE_CONS {
    TREE_CONS { changed: false, tree_type: TREE_TYPE::TREE_LC, mode_cons: MODE_CONS::eAll }
}

/// The constraint of a tree's root: both planes, any prediction, unchanged.
pub fn evc_get_default_tree_cons() -> (r: TREE_CONS)
    ensures
        r == default_tree_cons(),
{
    TREE_CONS { changed: false, tree_type: TREE_TYPE::TREE_LC, mode_cons: MODE_CONS::eAll }
}

/// Split options modelled by the search.
#[derive(Clone, Copy, Debug, PartialEq, Eq, Structural)]
pub enum SplitMode {
    NO_SPLIT,
    SPLIT_QUAD,
}

/// Position of a split option in a split-option set.
pub open spec fn split_index(m: SplitMode) -> int {
    match m {
        SplitMode::NO_SPLIT => 0,
        SplitMode::SPLIT_QUAD => 5,
    }
}

impl SplitMode {
    /// Position of this option in a split-option set.
    pub fn index(&self) -> (r: usize)
        ensures
            r == split_index(*self),
    {
        match self {
            SplitMode::NO_SPLIT => 0,
            SplitMode::SPLIT_QUAD => 5,
        }
    }

    /// Number of parts the split makes.
    #[inline]
    pub fn part_count(&self) -> (r: usize)
        ensures
            r == (if *self == SplitMode::NO_SPLIT {
                0usize
            } else {
                4usize
            }),
    {
        if *self == SplitMode::NO_SPLIT {
            0
        } else {
            4
        }
    }

    /// Side of a part for a block side `length`.
    #[inline]
    pub fn part_size(&self, length: usize) -> (r: usize)
        ensures
            r == (if *self == SplitMode::NO_SPLIT {
                length
            } else {
                length / 2
            }),
    {
        if *self == SplitMode::NO_SPLIT {
            length
        } else {
            length / 2
        }
    }

    /// Log2 side of a part for a block of log2 side `length_idx`.
    #[inline]
    pub fn part_size_idx(&self, length_idx: usize) -> (r: usize)
        requires
            *self == SplitMode::SPLIT_QUAD ==> length_idx >= 1,
        ensures
            r == (if *self == SplitMode::NO_SPLIT {
                length_idx
            } else {
                (length_idx - 1) as usize
            }),
    {
        if *self == SplitMode::NO_SPLIT {
            length_idx
        } else {
            length_idx - 1
        }
    }

    /// Quad-tree depth of the parts.
    #[inline]
    pub fn inc_qt_depth(&self, qtd: u8) -> (r: u8)
        requires
            *self == SplitMode::SPLIT_QUAD ==> qtd < 255,
        ensures
            r == (if *self == SplitMode::NO_SPLIT {
                qtd
            } else {
                (qtd + 1) as u8
            }),
    {
        if *self == SplitMode::NO_SPLIT {
            qtd
        } else {
            qtd + 1
        }
    }
}

} // verus!
