use evc::mcu::MCU;

#[test]
fn slice_number_round_trip_keeps_other_fields() {
    let mut m = MCU(0xFFFF_FF80);
    m.SET_SN(0x55);
    assert_eq!(m.GET_SN(), 0x55);
    assert_eq!(m.0, 0xFFFF_FFD5);
    m.SET_SN(0x1FF);
    assert_eq!(m.GET_SN(), 0x7F);
    assert_eq!(m.GET_IF(), 1);
    assert_eq!(m.GET_QP(), 0x7F);
    assert_eq!(m.GET_COD(), 1);
}

#[test]
fn single_bit_flags_set_and_clear() {
    let mut m = MCU::default();
    m.SET_IF();
    assert_eq!(m.GET_IF(), 1);
    assert_eq!(m.0, 0x8000);
    m.SET_SF();
    assert_eq!(m.GET_SF(), 1);
    m.SET_CBFL();
    assert_eq!(m.GET_CBFL(), 1);
    m.SET_COD();
    assert_eq!(m.GET_COD(), 1);
    assert_eq!(m.0, 0x8180_8000);
    m.CLR_IF();
    assert_eq!(m.GET_IF(), 0);
    m.CLR_SF();
    assert_eq!(m.GET_SF(), 0);
    m.CLR_CBFL();
    assert_eq!(m.GET_CBFL(), 0);
    m.CLR_COD();
    assert_eq!(m.GET_COD(), 0);
    assert_eq!(m.0, 0);
}

#[test]
fn qp_round_trip_on_any_word() {
    let mut m = MCU(0);
    m.SET_QP(37);
    assert_eq!(m.GET_QP(), 37);
    m.SET_QP(10);
    assert_eq!(m.GET_QP(), 10);
    let mut f = MCU(0x007F_0000);
    f.SET_QP(0);
    assert_eq!(f.GET_QP(), 0);
    let mut a = MCU(0xFFFF_FFFF);
    a.SET_QP(22);
    assert_eq!(a.GET_QP(), 22);
    assert_eq!(a.0 & 0xFF80_FFFF, 0xFF80_FFFF);
    a.RESET_QP();
    assert_eq!(a.GET_QP(), 0);
    a.SET_QP(200);
    assert_eq!(a.GET_QP(), 200 & 0x7F);
}

#[test]
fn combined_setter_round_trip() {
    for sn in [0u32, 1, 64, 127] {
        for qp in [0u8, 22, 51, 127] {
            for i in [0u32, 1] {
                let mut m = MCU(0x0180_7F80);
                m.SET_IF_COD_SN_QP(i, sn, qp);
                assert_eq!(m.GET_SN(), sn);
                assert_eq!(m.GET_QP(), qp as u32);
                assert_eq!(m.GET_IF(), i);
                assert_eq!(m.GET_COD(), 1);
                assert_eq!(m.GET_SF(), 1);
                assert_eq!(m.GET_CBFL(), 1);
                assert_eq!(m.0 & 0x7F80_7F80, 0x0180_7F80 & 0x7F80_7F80);
            }
        }
    }
}

#[test]
fn coded_and_not_intra() {
    let mut m = MCU(0);
    assert!(!m.IS_COD_NIF());
    m.SET_COD();
    assert!(m.IS_COD_NIF());
    m.SET_IF();
    assert!(!m.IS_COD_NIF());
    let mut n = MCU(0);
    n.SET_IF_COD_SN_QP(0, 3, 30);
    assert!(n.IS_COD_NIF());
}

#[test]
fn log2_size_fields() {
    let mut m = MCU(0);
    m.SET_LOGW(5);
    m.SET_LOGH(4);
    assert_eq!(m.GET_LOGW(), 5);
    assert_eq!(m.GET_LOGH(), 4);
    assert_eq!(m.0, 0x4500_0000);
    m.SET_LOGW(0x13);
    assert_eq!(m.GET_LOGW(), 3);
    assert_eq!(m.GET_LOGH(), 4);
    let mut k = MCU(0);
    k.SET_SN(9);
    k.SET_QP(30);
    k.SET_LOGW(6);
    k.SET_LOGH(6);
    assert_eq!(k.GET_SN(), 9);
    assert_eq!(k.GET_QP(), 30);
}
