use evc::com::{
    evc_assert_rv, evc_check_chroma, evc_check_luma, evc_get_default_tree_cons, EvcError,
    IntraPredDir, PredMode, SplitMode, GET_AVAIL_FLAG, GET_LUMA_QP, GET_QP, IS_AVAIL, MODE_CONS,
    PEL2SCU, REFI_IS_VALID, REM_AVAIL, SET_AVAIL, TREE_CONS, TREE_TYPE, AVAIL_LE, AVAIL_UP,
};

#[test]
fn assert_rv_maps_condition_to_result() {
    assert_eq!(evc_assert_rv(true, EvcError::InvalidArgument), Ok(()));
    assert_eq!(evc_assert_rv(false, EvcError::InvalidConfig), Err(EvcError::InvalidConfig));
}

#[test]
fn reference_index_validity() {
    assert!(REFI_IS_VALID(0));
    assert!(REFI_IS_VALID(3));
    assert!(!REFI_IS_VALID(-1));
}

#[test]
fn sample_to_block_coordinate() {
    assert_eq!(PEL2SCU(0), 0);
    assert_eq!(PEL2SCU(3), 0);
    assert_eq!(PEL2SCU(13), 3);
    assert_eq!(PEL2SCU(64), 16);
}

#[test]
fn availability_flags() {
    let mut a: u16 = 0;
    SET_AVAIL(&mut a, AVAIL_UP);
    SET_AVAIL(&mut a, AVAIL_LE);
    assert_eq!(a, 0x3);
    assert!(IS_AVAIL(a, AVAIL_UP));
    assert!(IS_AVAIL(a, AVAIL_UP | AVAIL_LE));
    assert!(GET_AVAIL_FLAG(a, 1));
    assert!(!GET_AVAIL_FLAG(a, 3));
    REM_AVAIL(&mut a, AVAIL_UP);
    assert_eq!(a, 0x2);
    assert!(!IS_AVAIL(a, AVAIL_UP));
}

#[test]
fn qp_wraps_into_codec_range() {
    assert_eq!(GET_QP(30, 5), 35);
    assert_eq!(GET_QP(50, 5), 3);
    assert_eq!(GET_QP(0, -1), 51);
    assert_eq!(GET_QP(-60, 0), -8);
    assert_eq!(GET_QP(127, 127), 46);
    assert_eq!(GET_LUMA_QP(30), 42);
}

#[test]
fn split_mode_geometry() {
    assert_eq!(SplitMode::NO_SPLIT.part_count(), 0);
    assert_eq!(SplitMode::SPLIT_QUAD.part_count(), 4);
    assert_eq!(SplitMode::NO_SPLIT.part_size(32), 32);
    assert_eq!(SplitMode::SPLIT_QUAD.part_size(32), 16);
    assert_eq!(SplitMode::NO_SPLIT.part_size_idx(5), 5);
    assert_eq!(SplitMode::SPLIT_QUAD.part_size_idx(5), 4);
    assert_eq!(SplitMode::NO_SPLIT.inc_qt_depth(2), 2);
    assert_eq!(SplitMode::SPLIT_QUAD.inc_qt_depth(2), 3);
    assert_eq!(SplitMode::NO_SPLIT.index(), 0);
    assert_eq!(SplitMode::SPLIT_QUAD.index(), 5);
}

#[test]
fn intra_direction_from_number() {
    assert_eq!(IntraPredDir::from(0u8), IntraPredDir::IPD_DC_B);
    assert_eq!(IntraPredDir::from(2u8), IntraPredDir::IPD_VER_B);
    assert_eq!(IntraPredDir::from(5u8), IntraPredDir::IPD_CNT_B);
    assert_eq!(IntraPredDir::from(6u8), IntraPredDir::IPD_UNKNOWN);
    assert_eq!(IntraPredDir::default(), IntraPredDir::IPD_UNKNOWN);
    assert_eq!(PredMode::default(), PredMode::MODE_INTRA);
    assert_eq!(PredMode::MODE_SKIP.code(), 2);
    assert_eq!(PredMode::MODE_IBC.code(), 6);
}

#[test]
fn tree_constraint_planes() {
    let d = evc_get_default_tree_cons();
    assert_eq!(d.tree_type, TREE_TYPE::TREE_LC);
    assert_eq!(d.mode_cons, MODE_CONS::eAll);
    assert!(!d.changed);
    assert!(evc_check_luma(&d) && evc_check_chroma(&d));
    let l = TREE_CONS { changed: true, tree_type: TREE_TYPE::TREE_L, mode_cons: MODE_CONS::eAll };
    assert!(evc_check_luma(&l) && !evc_check_chroma(&l));
    let c = TREE_CONS { changed: true, tree_type: TREE_TYPE::TREE_C, mode_cons: MODE_CONS::eOnlyIntra };
    assert!(!evc_check_luma(&c) && evc_check_chroma(&c));
}
