use evc::com::{IntraPredDir, PredMode, SplitMode, MODE_CONS, TREE_CONS, TREE_TYPE, EvcError};
use evc::cu_data::{EvceCUData, Plane};
use evc::mcu::MCU;

fn cons(t: TREE_TYPE) -> TREE_CONS {
    TREE_CONS { changed: false, tree_type: t, mode_cons: MODE_CONS::eAll }
}

fn numbered(log2: u8, base: u8) -> EvceCUData {
    let mut d = EvceCUData::new(log2, log2);
    let n = d.qp_y.len();
    for b in 0..n {
        d.qp_y[b] = base + b as u8;
        d.qp_u[b] = base + 100 + b as u8;
        d.qp_v[b] = base + 50 + b as u8;
        d.depth[b] = b as i8;
        d.map_scu[b] = MCU(b as u32 + 1);
        d.skip_flag[b] = b % 2 == 0;
        d.nnz[0][b] = true;
        d.nnz[1][b] = true;
        for e in 0..d.split_mode.len() {
            d.split_mode[e][b] = SplitMode::SPLIT_QUAD;
        }
    }
    for p in 0..3 {
        let m = d.reco[p].len();
        for s in 0..m {
            d.reco[p][s] = (p * 1000 + s) as u16 + 1;
            d.coef[p][s] = (p * 1000 + s) as i16 + 1;
        }
    }
    d
}

#[test]
fn new_sizes_arrays_for_the_node() {
    let d = EvceCUData::new(4, 3);
    assert_eq!(d.qp_y.len(), 4 * 2);
    assert_eq!(d.map_scu.len(), 8);
    assert_eq!(d.coef[0].len(), 16 * 8);
    assert_eq!(d.reco[1].len(), 8 * 4);
    assert_eq!(d.split_mode.len(), 55);
    assert!(d.split_mode.iter().all(|t| t.len() == 8 && t.iter().all(|m| *m == SplitMode::NO_SPLIT)));
    assert!(d.ipm[0].iter().all(|i| *i == IntraPredDir::IPD_DC_B));
    assert!(d.map_scu.iter().all(|m| m.0 == 0 && m.GET_COD() == 0));
    assert!(d.map_cu_mode.iter().all(|m| m.0 == 0));
    assert!(d.pred_mode.iter().all(|m| *m == PredMode::MODE_INTRA));
    assert!(d.skip_flag.iter().all(|s| !*s));
    assert!(d.mv.iter().all(|v| *v == [[0, 0], [0, 0]]));
    assert!(d.depth.iter().all(|v| *v == 0));
    assert!(d.coef.iter().all(|p| p.iter().all(|v| *v == 0)));
    assert!(d.reco.iter().all(|p| p.iter().all(|v| *v == 0)));
}

#[test]
fn init_resets_decisions_only() {
    let mut d = numbered(3, 1);
    d.init(3, 3, 30, 31, 32);
    assert!(d.qp_y.iter().all(|q| *q == 0));
    assert!(d.qp_u.iter().all(|q| *q == 0));
    assert!(d.split_mode.iter().all(|t| t.iter().all(|m| *m == SplitMode::NO_SPLIT)));
    assert!(d.ipm[1].iter().all(|i| *i == IntraPredDir::IPD_DC_B));
    assert_eq!(d.depth[3], 3);
    assert_eq!(d.reco[0][5], 6);
}

#[test]
fn copy_same_size_is_a_full_copy() {
    let src = numbered(3, 1);
    let mut dst = EvceCUData::new(3, 3);
    let r = dst.copy(&src, 0, 0, 3, 3, 3, 0, &cons(TREE_TYPE::TREE_LC));
    assert_eq!(r, Ok(()));
    assert_eq!(dst.qp_y, src.qp_y);
    assert_eq!(dst.qp_u, src.qp_u);
    assert_eq!(dst.map_scu, src.map_scu);
    assert_eq!(dst.reco[0], src.reco[0]);
    assert_eq!(dst.reco[2], src.reco[2]);
    assert_eq!(dst.split_mode, src.split_mode);
}

#[test]
fn copy_split_entries_from_the_node_depth_on() {
    let src = numbered(3, 1);
    let mut dst = EvceCUData::new(3, 3);
    dst.copy(&src, 0, 0, 3, 3, 3, 2, &cons(TREE_TYPE::TREE_LC)).unwrap();
    for e in 0..55 {
        let expect = if e >= 10 { SplitMode::SPLIT_QUAD } else { SplitMode::NO_SPLIT };
        assert!(dst.split_mode[e].iter().all(|m| *m == expect));
    }
}

#[test]
fn copy_luma_only_leaves_chroma() {
    let src = numbered(3, 1);
    let mut dst = numbered(3, 70);
    let before = numbered(3, 70);
    dst.copy(&src, 0, 0, 3, 3, 3, 0, &cons(TREE_TYPE::TREE_L)).unwrap();
    assert_eq!(dst.qp_y, src.qp_y);
    assert_eq!(dst.reco[0], src.reco[0]);
    assert_eq!(dst.qp_u, before.qp_u);
    assert_eq!(dst.qp_v, before.qp_v);
    assert_eq!(dst.nnz[1], before.nnz[1]);
    assert_eq!(dst.reco[1], before.reco[1]);
    assert_eq!(dst.coef[2], before.coef[2]);
}

#[test]
fn copy_chroma_only_leaves_luma() {
    let src = numbered(3, 1);
    let mut dst = numbered(3, 70);
    let before = numbered(3, 70);
    dst.copy(&src, 0, 0, 3, 3, 3, 0, &cons(TREE_TYPE::TREE_C)).unwrap();
    assert_eq!(dst.qp_u, src.qp_u);
    assert_eq!(dst.reco[2], src.reco[2]);
    assert_eq!(dst.qp_y, before.qp_y);
    assert_eq!(dst.map_scu, before.map_scu);
    assert_eq!(dst.depth, before.depth);
    assert_eq!(dst.split_mode, before.split_mode);
    assert_eq!(dst.reco[0], before.reco[0]);
}

#[test]
fn copy_smaller_node_repeats_its_first_block_row() {
    let src = numbered(3, 1);
    let mut dst = EvceCUData::new(4, 4);
    dst.copy(&src, 8, 0, 3, 3, 4, 0, &cons(TREE_TYPE::TREE_LC)).unwrap();
    // destination grid is 4 blocks wide; the source's row 0 is blocks 0 and 1
    assert_eq!(dst.qp_y[2], src.qp_y[0]);
    assert_eq!(dst.qp_y[3], src.qp_y[1]);
    assert_eq!(dst.qp_y[6], src.qp_y[0]);
    assert_eq!(dst.qp_y[7], src.qp_y[1]);
    assert_eq!(dst.qp_y[0], 0);
    assert_eq!(dst.qp_y[10], 0);
    // samples are copied row by row
    assert_eq!(dst.reco[0][8], src.reco[0][0]);
    assert_eq!(dst.reco[0][16 + 8], src.reco[0][8]);
    assert_eq!(dst.reco[0][7 * 16 + 15], src.reco[0][63]);
    assert_eq!(dst.reco[1][3 * 8 + 4], src.reco[1][3 * 4]);
}

#[test]
fn copy_rejects_bad_rectangles() {
    let src = numbered(3, 1);
    let mut dst = EvceCUData::new(4, 4);
    let lc = cons(TREE_TYPE::TREE_LC);
    assert_eq!(dst.copy(&src, 2, 0, 3, 3, 4, 0, &lc), Err(EvcError::InvalidArgument));
    assert_eq!(dst.copy(&src, 12, 0, 3, 3, 4, 0, &lc), Err(EvcError::InvalidArgument));
    assert_eq!(dst.copy(&src, 0, 0, 4, 4, 4, 0, &lc), Err(EvcError::InvalidArgument));
    assert_eq!(dst.copy(&src, 0, 0, 3, 3, 3, 0, &lc), Err(EvcError::InvalidArgument));
    assert!(dst.qp_y.iter().all(|q| *q == 0));
}

fn plane(w: usize, h: usize, v: u16) -> Plane {
    Plane { width: w, height: h, data: vec![v; w * h] }
}

#[test]
fn reconstruction_goes_to_the_planes() {
    let d = numbered(2, 1);
    let mut planes = [plane(8, 8, 0), plane(4, 4, 0), plane(4, 4, 0)];
    d.mode_cpy_rec_to_ref(4, 4, 4, 4, &mut planes, &cons(TREE_TYPE::TREE_LC));
    assert_eq!(planes[0].data[4 * 8 + 4], 1);
    assert_eq!(planes[0].data[7 * 8 + 7], 16);
    assert_eq!(planes[0].data[0], 0);
    assert_eq!(planes[1].data[2 * 4 + 2], 1001);
    assert_eq!(planes[2].data[3 * 4 + 3], 2004);
    let mut only_luma = [plane(8, 8, 0), plane(4, 4, 0), plane(4, 4, 0)];
    d.mode_cpy_rec_to_ref(0, 0, 4, 4, &mut only_luma, &cons(TREE_TYPE::TREE_L));
    assert_eq!(only_luma[0].data[0], 1);
    assert!(only_luma[1].data.iter().all(|s| *s == 0));
}
