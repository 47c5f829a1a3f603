use evc::com::{SplitMode, MODE_CONS, TREE_CONS, TREE_TYPE, EvcError, PredMode};
use evc::cu_data::{EvceCUData, Plane};
use evc::mcu::MCU;
use evc::mode::{
    cost_add, cost_mul, CuEval, EvalTable, EvceCtx, EvceMode, FrameParams, SplitBits, CONV_LOG2,
    MAX_COST,
};

fn params(w: u16, h: u16, log2_max: u8) -> FrameParams {
    FrameParams {
        w,
        h,
        log2_max_cuwh: log2_max,
        qp: 30,
        dqp: 0,
        cu_qp_delta_enabled_flag: false,
        dquant_flag: false,
        cu_qp_delta_area: 0,
        slice_intra: false,
        slice_num: 0,
        lambda: 1,
    }
}

fn cu(x: u16, y: u16, log2_size: u8, qp: u8, cost: u64) -> CuEval {
    CuEval { x, y, log2_size, qp, cost, intra: false, skip: false }
}

fn quad_table(x: u16, y: u16, no_split: u64, part: u64, quad_bits: u64) -> EvalTable {
    EvalTable {
        cu: vec![
            cu(x, y, 3, 30, no_split),
            cu(x, y, 2, 30, part),
            cu(x + 4, y, 2, 30, part),
            cu(x, y + 4, 2, 30, part),
            cu(x + 4, y + 4, 2, 30, part),
        ],
        split_bits: vec![SplitBits { x, y, log2_size: 3, split: SplitMode::SPLIT_QUAD, bits: quad_bits }],
    }
}

fn root_split(c: &EvceCtx) -> SplitMode {
    let l = c.log2_max_cuwh as usize;
    c.core.cu_data_best[l - 2].split_mode[2][0]
}

#[test]
fn frame_setup_validates_dimensions() {
    assert!(EvceCtx::new(params(16, 8, 3)).is_ok());
    assert_eq!(EvceCtx::new(params(18, 8, 3)).err(), Some(EvcError::InvalidConfig));
    assert_eq!(EvceCtx::new(params(0, 8, 3)).err(), Some(EvcError::InvalidConfig));
    assert_eq!(EvceCtx::new(params(16, 8, 7)).err(), Some(EvcError::InvalidConfig));
    let mut p = params(16, 8, 3);
    p.qp = 52;
    assert_eq!(EvceCtx::new(p).err(), Some(EvcError::InvalidConfig));
    let c = EvceCtx::new(params(16, 8, 3)).unwrap();
    assert_eq!(c.w_scu, 4);
    assert_eq!(c.h_scu, 2);
    assert_eq!(c.map_scu.len(), 8);
    assert_eq!(c.core.cu_data_best.len(), 5);
    assert_eq!(c.core.cu_data_best[4].qp_y.len(), 256);
}

#[test]
fn quad_split_wins_when_cheaper() {
    let mut c = EvceCtx::new(params(8, 8, 3)).unwrap();
    let t = quad_table(0, 0, 100, 20, 5);
    let cost = c.mode_analyze_lcu(&t);
    assert_eq!(cost, 85);
    assert_eq!(root_split(&c), SplitMode::SPLIT_QUAD);
    assert!(c.core.cu_data_best[1].split_mode[2].iter().all(|m| *m == SplitMode::SPLIT_QUAD));
    assert_eq!(c.mode.mvp_idx, [0, 0]);
}

#[test]
fn no_split_wins_when_cheaper() {
    let mut c = EvceCtx::new(params(8, 8, 3)).unwrap();
    let t = quad_table(0, 0, 60, 20, 5);
    let cost = c.mode_analyze_lcu(&t);
    assert_eq!(cost, 60);
    assert_eq!(root_split(&c), SplitMode::NO_SPLIT);
    assert!(c.core.cu_data_best[1].qp_y.iter().all(|q| *q == 30));
    assert!(c.core.cu_data_best[1].map_scu.iter().all(|m| m.GET_COD() == 1 && m.GET_QP() == 30));
    assert!(c.core.cu_data_best[1].split_mode[2].iter().all(|m| *m == SplitMode::NO_SPLIT));
    assert!(c.core.cu_data_best[1].depth.iter().all(|d| *d == 0));
    assert_eq!(c.mode.cu_mode, MCU(PredMode::MODE_INTER.code()));
}

#[test]
fn boundary_node_splits_without_further_split_allowed() {
    let mut c = EvceCtx::new(params(12, 8, 3)).unwrap();
    c.core.x_pel = 8;
    let t = EvalTable {
        cu: vec![cu(8, 0, 3, 30, 1), cu(8, 0, 2, 30, 20), cu(8, 4, 2, 30, 20)],
        split_bits: vec![],
    };
    let lc = TREE_CONS { changed: false, tree_type: TREE_TYPE::TREE_LC, mode_cons: MODE_CONS::eAll };
    let cost = c.mode_coding_tree(&t, 8, 0, 0, 3, 3, 0, false, 30, lc);
    assert_eq!(cost, 40);
    assert_eq!(root_split(&c), SplitMode::SPLIT_QUAD);
}

#[test]
fn mode_history_follows_committed_store() {
    let mut c = EvceCtx::new(params(8, 8, 3)).unwrap();
    let mut e = cu(0, 0, 3, 30, 10);
    e.skip = true;
    let t = EvalTable { cu: vec![e], split_bits: vec![] };
    assert_eq!(c.mode_analyze_lcu(&t), 10);
    assert_eq!(c.mode.cu_mode, MCU(PredMode::MODE_SKIP.code()));
    assert!(c.core.cu_data_best[1].skip_flag.iter().all(|s| *s));
    assert!(c.core.cu_data_best[1].map_scu.iter().all(|m| m.GET_SF() == 1));
}

#[test]
fn neighbour_depth_forbids_no_split() {
    let mut c = EvceCtx::new(params(16, 8, 3)).unwrap();
    for k in [1usize, 5] {
        c.map_scu[k].SET_COD();
        c.map_depth[k] = 2;
    }
    c.core.x_pel = 8;
    let t = quad_table(8, 0, 50, 20, 5);
    let cost = c.mode_analyze_lcu(&t);
    assert_eq!(cost, 85);
    assert_eq!(root_split(&c), SplitMode::SPLIT_QUAD);
}

#[test]
fn neighbour_heuristics_report() {
    let mut c = EvceCtx::new(params(16, 8, 3)).unwrap();
    let (mut dc, mut ds, mut sk) = (true, true, true);
    let m = c.check_nev_block(8, 0, 3, 3, &mut dc, &mut ds, 0, &mut sk);
    assert_eq!((m, dc, ds, sk), (10, true, true, false));
    for k in [1usize, 5] {
        c.map_scu[k].SET_COD();
        c.map_scu[k].SET_SF();
        c.map_depth[k] = 2;
    }
    let m = c.check_nev_block(8, 0, 3, 3, &mut dc, &mut ds, 0, &mut sk);
    assert_eq!((m, dc, ds, sk), (2, false, true, true));
    let m = c.check_nev_block(8, 0, 3, 3, &mut dc, &mut ds, 4, &mut sk);
    assert_eq!((m, dc, ds, sk), (2, true, false, true));
    c.slice_intra = true;
    let _ = c.check_nev_block(8, 0, 3, 3, &mut dc, &mut ds, 1, &mut sk);
    assert_eq!((dc, ds, sk), (true, true, false));
}

#[test]
fn boundary_node_always_splits() {
    let mut c = EvceCtx::new(params(12, 8, 3)).unwrap();
    c.core.x_pel = 8;
    let t = EvalTable {
        cu: vec![cu(8, 0, 3, 30, 1), cu(8, 0, 2, 30, 20), cu(8, 4, 2, 30, 20), cu(12, 0, 2, 30, 1)],
        split_bits: vec![SplitBits { x: 8, y: 0, log2_size: 3, split: SplitMode::SPLIT_QUAD, bits: 5 }],
    };
    let cost = c.mode_analyze_lcu(&t);
    assert_eq!(cost, 45);
    assert_eq!(root_split(&c), SplitMode::SPLIT_QUAD);
}

#[test]
fn search_is_deterministic() {
    let t = quad_table(0, 0, 100, 20, 5);
    let mut a = EvceCtx::new(params(8, 8, 3)).unwrap();
    let mut b = EvceCtx::new(params(8, 8, 3)).unwrap();
    assert_eq!(a.mode_analyze_lcu(&t), b.mode_analyze_lcu(&t));
    for l in 0..5 {
        assert_eq!(a.core.cu_data_best[l].split_mode, b.core.cu_data_best[l].split_mode);
        assert_eq!(a.core.cu_data_best[l].qp_y, b.core.cu_data_best[l].qp_y);
        assert_eq!(a.core.cu_data_best[l].map_scu, b.core.cu_data_best[l].map_scu);
    }
    assert_eq!(a.mode_analyze_lcu(&t), 85);
}

#[test]
fn qp_range_without_delta_qp_is_the_slice_qp() {
    let mut c = EvceCtx::new(params(64, 64, 6)).unwrap();
    for (cuw, split) in [(4u16, SplitMode::NO_SPLIT), (64, SplitMode::NO_SPLIT), (16, SplitMode::SPLIT_QUAD)] {
        let (mut lo, mut hi, mut set) = (0u8, 0u8, true);
        c.get_min_max_qp(&mut lo, &mut hi, &mut set, split, cuw, cuw, 40, 0, 0);
        assert_eq!((lo, hi, set), (30, 30, false));
    }
}

#[test]
fn qp_range_with_delta_qp() {
    let mut p = params(64, 64, 6);
    p.cu_qp_delta_enabled_flag = true;
    p.dqp = 3;
    let mut c = EvceCtx::new(p).unwrap();
    let (mut lo, mut hi, mut set) = (0u8, 0u8, false);
    c.get_min_max_qp(&mut lo, &mut hi, &mut set, SplitMode::NO_SPLIT, 16, 16, 40, 0, 0);
    assert_eq!((lo, hi, set), (30, 33, false));
    c.get_min_max_qp(&mut lo, &mut hi, &mut set, SplitMode::SPLIT_QUAD, 16, 16, 40, 0, 0);
    assert_eq!((lo, hi, set), (40, 40, false));

    let mut p = params(64, 64, 6);
    p.cu_qp_delta_enabled_flag = true;
    p.dquant_flag = true;
    p.dqp = 2;
    p.cu_qp_delta_area = 10;
    let mut d = EvceCtx::new(p).unwrap();
    d.get_min_max_qp(&mut lo, &mut hi, &mut set, SplitMode::NO_SPLIT, 64, 64, 40, 0, 0);
    assert_eq!((lo, hi, set, d.core.cu_qp_delta_code_mode), (30, 32, false, 1));
    d.get_min_max_qp(&mut lo, &mut hi, &mut set, SplitMode::SPLIT_QUAD, 64, 32, 40, 0, 0);
    assert_eq!((lo, hi, set, d.core.cu_qp_delta_code_mode), (30, 32, true, 2));
    d.get_min_max_qp(&mut lo, &mut hi, &mut set, SplitMode::NO_SPLIT, 8, 8, 40, 0, 0);
    assert_eq!((lo, hi, set, d.core.cu_qp_delta_code_mode), (40, 40, false, 2));
}

#[test]
fn delta_qp_range_scans_candidates() {
    let mut p = params(8, 8, 3);
    p.cu_qp_delta_enabled_flag = true;
    p.dqp = 2;
    let mut c = EvceCtx::new(p).unwrap();
    let t = EvalTable {
        cu: vec![cu(0, 0, 3, 30, 40), cu(0, 0, 3, 31, 35), cu(0, 0, 3, 32, 35)],
        split_bits: vec![],
    };
    assert_eq!(c.mode_analyze_lcu(&t), 35);
    assert_eq!(root_split(&c), SplitMode::NO_SPLIT);
    assert_eq!(c.core.cu_data_best[1].qp_y[0], 31);
}

#[test]
fn run_split_pruning() {
    let c = EvceCtx::new(params(8, 8, 3)).unwrap();
    let lc = TREE_CONS { changed: false, tree_type: TREE_TYPE::TREE_LC, mode_cons: MODE_CONS::eAll };
    let mut a = vec![true, false, false, false, false, true];
    c.check_run_split(3, 3, 0, true, false, true, &mut a, false, &lc);
    assert_eq!(a, vec![false, false, false, false, false, true]);
    let mut b = vec![true, false, false, false, false, true];
    c.check_run_split(3, 3, 0, true, false, false, &mut b, false, &lc);
    assert_eq!(b, vec![true, false, false, false, false, false]);
    let mut d = vec![false, true, true, true, true, true];
    c.check_run_split(3, 3, 0, false, false, true, &mut d, false, &lc);
    assert_eq!(d, vec![true, false, false, false, false, false]);
}

#[test]
fn clearing_maps_is_clipped_to_the_picture() {
    let mut c = EvceCtx::new(params(12, 8, 3)).unwrap();
    for k in 0..c.map_scu.len() {
        c.map_scu[k] = MCU(7);
        c.map_cu_mode[k] = MCU(9);
    }
    c.clear_map_scu(8, 4, 8, 8);
    let cleared: Vec<usize> = (0..6).filter(|k| c.map_scu[*k].0 == 0).collect();
    assert_eq!(cleared, vec![5]);
    assert_eq!(c.map_cu_mode[5].0, 0);
    assert_eq!(c.map_cu_mode[4].0, 9);
}

#[test]
fn reference_picture_receives_leaves() {
    let mut c = EvceCtx::new(params(16, 8, 3)).unwrap();
    let planes = [
        Plane { width: 16, height: 8, data: vec![7; 128] },
        Plane { width: 8, height: 4, data: vec![7; 32] },
        Plane { width: 8, height: 4, data: vec![7; 32] },
    ];
    let small = [
        Plane { width: 8, height: 8, data: vec![7; 64] },
        Plane { width: 8, height: 4, data: vec![7; 32] },
        Plane { width: 8, height: 4, data: vec![7; 32] },
    ];
    assert_eq!(c.attach_pic(small), Err(EvcError::InvalidConfig));
    assert_eq!(c.attach_pic(planes), Ok(()));
    let t = quad_table(0, 0, 100, 20, 5);
    c.mode_analyze_lcu(&t);
    let p = c.pic.as_ref().unwrap();
    assert_eq!(p[0].data[0], 0);
    assert_eq!(p[0].data[7 * 16 + 7], 0);
    assert_eq!(p[0].data[8], 7);
    assert_eq!(p[1].data[3 * 8 + 3], 0);
    assert_eq!(p[1].data[4], 7);
}

#[test]
fn mode_history_takes_block_data() {
    let mut d = EvceCUData::new(3, 3);
    d.pred_mode[3] = PredMode::MODE_SKIP;
    d.mv[3] = [[1, 2], [3, 4]];
    d.refi[3] = [0, -1];
    d.mvd[3] = [[5, -6], [7, 8]];
    let mut m = EvceMode::new();
    m.get_cu_pred_data(&d, 4, 4, 3, 3, 3, 0);
    assert_eq!(m.mvd, [[5, -6], [7, 8]]);
    assert_eq!(m.cu_mode, MCU(2));
    assert_eq!(m.mv, [[1, 2], [3, 4]]);
    assert_eq!(m.refi, [0, -1]);
}

#[test]
fn frame_init_sets_row_length() {
    let mut c = EvceCtx::new(params(64, 64, 6)).unwrap();
    c.mode.log2_culine = 0;
    c.mode_init_frame();
    assert_eq!(c.mode.log2_culine, 4);
}

#[test]
fn cost_arithmetic_saturates() {
    assert_eq!(cost_add(2, 3), 5);
    assert_eq!(cost_add(MAX_COST - 1, 3), MAX_COST);
    assert_eq!(cost_mul(4, 5), 20);
    assert_eq!(cost_mul(0, MAX_COST), 0);
    assert_eq!(cost_mul(1 << 40, 1 << 40), MAX_COST);
    assert_eq!(CONV_LOG2(64), 6);
    assert_eq!(CONV_LOG2(1), 0);
}

#[test]
fn table_lookup_takes_first_match() {
    let t = EvalTable {
        cu: vec![cu(0, 0, 3, 30, 9), cu(0, 0, 3, 30, 4)],
        split_bits: vec![SplitBits { x: 0, y: 0, log2_size: 3, split: SplitMode::NO_SPLIT, bits: 6 }],
    };
    assert_eq!(t.lookup_cu(0, 0, 3, 30).map(|e| e.cost), Some(9));
    assert_eq!(t.lookup_cu(0, 0, 3, 31), None);
    assert_eq!(t.lookup_bits(0, 0, 3, SplitMode::NO_SPLIT), 6);
    assert_eq!(t.lookup_bits(0, 0, 3, SplitMode::SPLIT_QUAD), 0);
}
