use wirenorm::WireError;
use wirenorm::edges::handle_edge_name;
use wirenorm::grammar::{parse_rc, is_full_global_wn, is_hbranch_wn, is_spine_wn, is_hrow_wn,
    is_dqs_group_wn};
use wirenorm::neighbour::{BranchSide, Neighbour};
use wirenorm::normalize::{DeviceBounds, Tile, normalize_wire};

fn tile(x: u32, y: u32, name: &str) -> Tile {
    Tile { x, y, name: name.to_string(), tiletype: "PLC".to_string() }
}

fn bounds() -> DeviceBounds {
    DeviceBounds { max_row: 56, max_col: 80 }
}

fn norm(t: &Tile, wire: &str) -> Result<String, WireError> {
    normalize_wire(&bounds(), t, wire)
}

#[test]
fn parse_rc_splits_row_col_base() {
    let w = parse_rc("R12C34_FOO_BAR").unwrap();
    assert_eq!(w.row, 12);
    assert_eq!(w.col, 34);
    assert_eq!(w.base, "FOO_BAR");
}

#[test]
fn parse_rc_rejects_malformed_names() {
    assert!(parse_rc("FOO").is_none());
    assert!(parse_rc("R1C2C3_B").is_none());
    assert!(parse_rc("RxC1_y").is_none());
    assert!(parse_rc("R1C2_").is_none());
    assert!(parse_rc("R1_C2_X").is_none());
    assert!(parse_rc("R99999999999C1_X").is_none());
}

#[test]
fn classifier_patterns_match_exactly() {
    assert!(is_hbranch_wn("HPBX0100"));
    assert!(!is_hbranch_wn("HPBX01000"));
    assert!(!is_hbranch_wn("HPBX0101"));
    assert!(is_spine_wn("VPSX0400"));
    assert!(is_hrow_wn("HPRX0300"));
    assert!(is_full_global_wn("LHPRX2"));
    assert!(is_full_global_wn("RHPRX13"));
    assert!(!is_full_global_wn("XHPRX1"));
    assert!(is_full_global_wn("JHFN0_DCSMUX_CORE_DCSMUX1"));
    assert!(is_full_global_wn("JVFW12_CMUX_CORE_CMUX0"));
    assert!(!is_full_global_wn("JHFN_DCSMUX_CORE_DCSMUX1"));
    assert!(is_full_global_wn("LMID_CORE_LMIDMUX"));
    assert!(is_full_global_wn("JECLKOUT1_ECLKCASMUX_CORE_ECLKCASMUX0"));
    assert!(is_full_global_wn("JMUXIN5_ECLKBANK_CORE_ECLKBANK2"));
    assert!(is_dqs_group_wn("JWRPNTR0_DQSBUF_CORE_I_DQS_TOP"));
    assert!(is_dqs_group_wn("JDQSW270_DQSBUF_CORE_I_DQS_TOP"));
    assert!(is_dqs_group_wn("JDQSW_DQSBUF_CORE_I_DQS_TOP"));
    assert!(is_dqs_group_wn("JDQSR90_DQSBUF_CORE_I_DQS_TOP"));
    assert!(!is_dqs_group_wn("JDQSX_DQSBUF_CORE_I_DQS_TOP"));
}

#[test]
fn edge_h01_advances_segment_at_right_edge() {
    // a tile one column before the right device edge sees segment 00 of a
    // span-1 wire; the canonical encoding is segment 01 one column further
    let r = handle_edge_name(80, 56, 79, 10, 79, 10, "H01E0000").unwrap();
    assert_eq!(r, ("H01E0001".to_string(), 80, 10));
}

#[test]
fn edge_h01_passes_through_mid_array() {
    let r = handle_edge_name(80, 56, 40, 10, 40, 10, "H01E0500").unwrap();
    assert_eq!(r, ("H01E0500".to_string(), 40, 10));
}

#[test]
fn edge_h02_left_and_right() {
    assert_eq!(
        handle_edge_name(80, 56, 1, 9, 1, 9, "H02E0002").unwrap(),
        ("H02E0001".to_string(), 0, 9)
    );
    assert_eq!(
        handle_edge_name(80, 56, 1, 9, 1, 9, "H02W0500").unwrap(),
        ("H02W0501".to_string(), 0, 9)
    );
    assert_eq!(
        handle_edge_name(80, 56, 79, 9, 79, 9, "H02E0100").unwrap(),
        ("H02E0101".to_string(), 80, 9)
    );
    assert_eq!(
        handle_edge_name(80, 56, 79, 9, 79, 9, "H02W0102").unwrap(),
        ("H02W0101".to_string(), 80, 9)
    );
}

#[test]
fn edge_h06_near_edges() {
    // left edge: x is pulled back to the nominal span midpoint
    assert_eq!(
        handle_edge_name(80, 56, 2, 9, 2, 9, "H06W0302").unwrap(),
        ("H06W0303".to_string(), 1, 9)
    );
    assert_eq!(
        handle_edge_name(80, 56, 1, 9, 2, 9, "H06E0305").unwrap(),
        ("H06E0303".to_string(), 0, 9)
    );
    // right edge
    assert_eq!(
        handle_edge_name(80, 56, 78, 9, 78, 9, "H06W0304").unwrap(),
        ("H06W0303".to_string(), 79, 9)
    );
    assert_eq!(
        handle_edge_name(80, 56, 78, 9, 78, 9, "H06E0302").unwrap(),
        ("H06E0303".to_string(), 79, 9)
    );
}

#[test]
fn edge_v_wires() {
    assert_eq!(
        handle_edge_name(80, 56, 10, 1, 10, 1, "V01N0300").unwrap(),
        ("V01N0301".to_string(), 10, 0)
    );
    assert_eq!(
        handle_edge_name(80, 56, 10, 1, 10, 1, "V01S0301").unwrap(),
        ("V01S0301".to_string(), 10, 0)
    );
    assert_eq!(
        handle_edge_name(80, 56, 10, 1, 10, 1, "V02S0702").unwrap(),
        ("V02S0701".to_string(), 10, 0)
    );
    assert_eq!(
        handle_edge_name(80, 56, 10, 55, 10, 55, "V02N0702").unwrap(),
        ("V02N0701".to_string(), 10, 56)
    );
    assert_eq!(
        handle_edge_name(80, 56, 10, 2, 10, 2, "V06N0301").unwrap(),
        ("V06N0303".to_string(), 10, 0)
    );
    assert_eq!(
        handle_edge_name(80, 56, 10, 53, 10, 53, "V06N0304").unwrap(),
        ("V06N0303".to_string(), 10, 54)
    );
}

#[test]
fn parse_rc_bounds_coordinates() {
    let w = parse_rc("R4294967295C1_X").unwrap();
    assert_eq!(w.row, u32::MAX);
    assert!(parse_rc("R4294967296C1_X").is_none());
}

#[test]
fn edge_h01_rejects_wrong_segment_at_edge() {
    // at the right edge a span-1 wire must carry segment 00
    assert!(handle_edge_name(80, 56, 79, 10, 79, 10, "H01E0501").is_err());
}

#[test]
fn edge_v01_passes_through_away_from_top() {
    assert_eq!(
        handle_edge_name(80, 56, 10, 9, 10, 9, "V01N0300").unwrap(),
        ("V01N0300".to_string(), 10, 9)
    );
}

#[test]
fn edge_rejects_unknown_span() {
    match handle_edge_name(80, 56, 10, 10, 10, 10, "H03E0000") {
        Err(WireError::Grammar { wire }) => assert_eq!(wire, "H03E0000"),
        other => panic!("expected a grammar violation, got {:?}", other),
    }
    assert!(handle_edge_name(80, 56, 10, 10, 10, 10, "V09S0000").is_err());
}

#[test]
fn edge_passes_other_names_through() {
    let r = handle_edge_name(80, 56, 3, 4, 7, 8, "JF3").unwrap();
    assert_eq!(r, ("JF3".to_string(), 7, 8));
}

#[test]
fn vcc_rails_collapse_to_one_global() {
    // any position, any suffix carrier: always exactly G:VCC
    let t = tile(10, 5, "PLC_R5C10");
    assert_eq!(norm(&t, "R5C10_FOOVCC").unwrap(), "G:VCC");
    assert_eq!(norm(&t, "R1C79_VCCHPRX").unwrap(), "G:VCC");
    let t2 = tile(44, 31, "CIB_R31C44");
    assert_eq!(norm(&t2, "R2C3_XVCCHPBX").unwrap(), "G:VCC");
}

#[test]
fn local_wire_keeps_bare_base() {
    let t = tile(10, 5, "PLC_R5C10");
    assert_eq!(norm(&t, "R5C10_JF0").unwrap(), "JF0");
}

#[test]
fn relative_offsets_are_position_prefixes() {
    let t = tile(10, 5, "PLC_R5C10");
    assert_eq!(norm(&t, "R7C11_XX").unwrap(), "S2E1:XX");
    assert_eq!(norm(&t, "R3C10_YY").unwrap(), "N2:YY");
    assert_eq!(norm(&t, "R5C7_ZZ").unwrap(), "W3:ZZ");
    let t0 = tile(0, 0, "PLC_R0C0");
    assert_eq!(norm(&t0, "R0C12_F").unwrap(), "E12:F");
    assert_eq!(norm(&t0, "R34C0_F").unwrap(), "S34:F");
    assert_eq!(norm(&t0, "R34C7_F").unwrap(), "S34E7:F");
}

#[test]
fn position_independence_of_canonical_names() {
    // same type, same displacement, different absolute positions
    let t1 = tile(10, 5, "PLC_R5C10");
    let t2 = tile(20, 15, "PLC_R15C20");
    assert_eq!(norm(&t1, "R7C11_XX").unwrap(), norm(&t2, "R17C21_XX").unwrap());
}

#[test]
fn tap_tiles_classify_branch_drivers_by_side() {
    let t = tile(10, 5, "TAP_R5C10");
    assert_eq!(norm(&t, "R5C9_HFOO").unwrap(), "BRANCH_L:HFOO");
    assert_eq!(norm(&t, "R5C11_HFOO").unwrap(), "BRANCH_R:HFOO");
    match norm(&t, "R5C10_HFOO") {
        Err(WireError::AmbiguousSide { wire, tile }) => {
            assert_eq!(wire, "R5C10_HFOO");
            assert_eq!(tile, "TAP_R5C10");
        },
        other => panic!("expected an ambiguous-side error, got {:?}", other),
    }
    // TAP classification outranks the global branch pattern
    assert_eq!(norm(&t, "R5C9_HPBX0100").unwrap(), "BRANCH_L:HPBX0100");
}

#[test]
fn global_network_classes_take_fixed_prefixes() {
    let t = tile(10, 5, "PLC_R5C10");
    assert_eq!(norm(&t, "R5C11_HPBX0100").unwrap(), "BRANCH:HPBX0100");
    assert_eq!(norm(&t, "R5C11_VPSX0400").unwrap(), "SPINE:VPSX0400");
    assert_eq!(norm(&t, "R5C11_HPRX0300").unwrap(), "HROW:HPRX0300");
    assert_eq!(norm(&t, "R5C11_LHPRX2").unwrap(), "G:LHPRX2");
    assert_eq!(norm(&t, "R5C11_JHFN0_DCSMUX_CORE_DCSMUX1").unwrap(), "G:JHFN0_DCSMUX_CORE_DCSMUX1");
    assert_eq!(
        norm(&t, "R5C11_JWRPNTR0_DQSBUF_CORE_I_DQS_TOP").unwrap(),
        "DQSG:JWRPNTR0_DQSBUF_CORE_I_DQS_TOP"
    );
}

#[test]
fn normalize_rejects_malformed_names() {
    let t = tile(10, 5, "PLC_R5C10");
    match norm(&t, "NOT_A_WIRE") {
        Err(WireError::Grammar { wire }) => assert_eq!(wire, "NOT_A_WIRE"),
        other => panic!("expected a grammar violation, got {:?}", other),
    }
    assert!(norm(&t, "R5C10_H03E0000").is_err());
}

#[test]
fn normalize_applies_edge_rules_before_offsets() {
    let t = tile(1, 5, "PLC_R5C1");
    // H02E0002 at the left edge denotes segment 01 one column to the left
    assert_eq!(norm(&t, "R5C1_H02E0002").unwrap(), "W1:H02E0001");
}

#[test]
fn parse_wire_splits_fixed_class_tokens() {
    let ok = |s: &str| Neighbour::parse_wire(s).unwrap();
    assert_eq!(
        ok("BRANCH_L:H01E0001"),
        (Some(Neighbour::BranchDriver { side: BranchSide::Left }), "H01E0001".to_string())
    );
    assert_eq!(
        ok("BRANCH_R:H01E0001"),
        (Some(Neighbour::BranchDriver { side: BranchSide::Right }), "H01E0001".to_string())
    );
    assert_eq!(ok("BRANCH:HPBX0100"), (Some(Neighbour::Branch), "HPBX0100".to_string()));
    assert_eq!(ok("SPINE:VPSX0400"), (Some(Neighbour::Spine), "VPSX0400".to_string()));
    assert_eq!(ok("HROW:HPRX0300"), (Some(Neighbour::HRow), "HPRX0300".to_string()));
    assert_eq!(ok("G:VCC"), (Some(Neighbour::Global), "VCC".to_string()));
    assert_eq!(ok("DQSG:X"), (Some(Neighbour::DQSGroup), "X".to_string()));
}

#[test]
fn parse_wire_without_separator_is_identity() {
    assert_eq!(
        Neighbour::parse_wire("JF0").unwrap(),
        (None, "JF0".to_string())
    );
    assert_eq!(
        Neighbour::parse_wire("").unwrap(),
        (None, "".to_string())
    );
}

#[test]
fn parse_wire_reads_offset_tokens() {
    let ok = |s: &str| Neighbour::parse_wire(s).unwrap();
    assert_eq!(ok("S2E1:XX"), (Some(Neighbour::RelXY { rel_x: 1, rel_y: 2 }), "XX".to_string()));
    assert_eq!(ok("N6:YY"), (Some(Neighbour::RelXY { rel_x: 0, rel_y: -6 }), "YY".to_string()));
    assert_eq!(ok("W3:ZZ"), (Some(Neighbour::RelXY { rel_x: -3, rel_y: 0 }), "ZZ".to_string()));
    assert_eq!(ok("E12:F"), (Some(Neighbour::RelXY { rel_x: 12, rel_y: 0 }), "F".to_string()));
}

#[test]
fn parse_wire_rejects_bad_offset_tokens() {
    assert!(Neighbour::parse_wire(":X").is_err());
    assert!(Neighbour::parse_wire("X2:foo").is_err());
    assert!(Neighbour::parse_wire("N:foo").is_err());
    assert!(Neighbour::parse_wire("N2X3:foo").is_err());
    assert!(Neighbour::parse_wire("N99999999999:foo").is_err());
}

#[test]
fn offset_prefixes_invert_to_their_displacement() {
    // normalization step 7 followed by classification recovers the offset
    let t = tile(10, 5, "PLC_R5C10");
    let n = norm(&t, "R7C11_XX").unwrap();
    assert_eq!(
        Neighbour::parse_wire(&n).unwrap(),
        (Some(Neighbour::RelXY { rel_x: 1, rel_y: 2 }), "XX".to_string())
    );
}

#[test]
fn errors_name_the_offending_wire() {
    let t = tile(10, 5, "TAP_R5C10");
    let e = norm(&t, "R5C10_HFOO").unwrap_err();
    assert_eq!(e.describe(), "R5C10_HFOO");
}
