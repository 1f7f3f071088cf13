use yk_sections::cfg::{CallKind, CfgRecord, CfgTerminator, DefCfg, MirLoc};
use yk_sections::decode::{decode_section, read_record};
use yk_sections::mir_cfg::{
    emit_mir_cfg_section, emit_simple_dynamic_edge, emit_simple_static_edge, emit_terminator,
    MIR_CFG_SECTION_NAME,
};
use yk_sections::datasection::DataSection;

const H: u64 = 0x1122_3344_5566_7788;
const D: u32 = 5;
const T_HASH: u64 = 0xa1b2_c3d4_e5f6_0718;
const T_IDX: u32 = 42;

fn loc_bytes(out: &mut Vec<u8>, h: u64, d: u32, bb: u32) {
    out.extend_from_slice(&h.to_le_bytes());
    out.extend_from_slice(&d.to_le_bytes());
    out.extend_from_slice(&bb.to_le_bytes());
}

fn scenario_blocks() -> Vec<CfgTerminator> {
    vec![
        CfgTerminator::SwitchInt { bbs: vec![1, 2, 3] },
        CfgTerminator::Return,
        CfgTerminator::Return,
        CfgTerminator::Call {
            call_kind: CallKind::Known { crate_hash: T_HASH, def_idx: T_IDX },
            cleanup_bb: Some(4),
        },
        CfgTerminator::Resume,
    ]
}

#[test]
fn scenario_switch_return_call_resume() {
    let defs = vec![DefCfg { crate_hash: H, def_idx: D, blocks: Some(scenario_blocks()) }];
    let sec = emit_mir_cfg_section(&defs);
    assert_eq!(sec.sec_name(), MIR_CFG_SECTION_NAME);
    assert_eq!(sec.sec_name(), ".yk_mir_cfg");

    let mut want = Vec::new();
    // SwitchInt(src=0, targets=[1,2,3])
    want.push(1u8);
    loc_bytes(&mut want, H, D, 0);
    want.extend_from_slice(&3usize.to_le_bytes());
    for t in [1u32, 2, 3] {
        want.extend_from_slice(&t.to_le_bytes());
    }
    // Return(src=1), Return(src=2)
    want.push(4u8);
    loc_bytes(&mut want, H, D, 1);
    want.push(4u8);
    loc_bytes(&mut want, H, D, 2);
    // Call-Known(src=3, dst=T, cleanup=4)
    want.push(11u8);
    loc_bytes(&mut want, H, D, 3);
    want.extend_from_slice(&T_HASH.to_le_bytes());
    want.extend_from_slice(&T_IDX.to_le_bytes());
    want.extend_from_slice(&4u32.to_le_bytes());
    // Resume(src=4)
    want.push(2u8);
    loc_bytes(&mut want, H, D, 4);
    // Sentinel
    want.push(255u8);

    assert_eq!(sec.to_bytes(), want);

    let recs = decode_section(&sec.to_bytes()).unwrap();
    let blocks = scenario_blocks();
    assert_eq!(recs.len(), 5);
    for (i, r) in recs.iter().enumerate() {
        let expect = CfgRecord::Edge {
            loc: MirLoc { crate_hash: H, def_idx: D, bb: i as u32 },
            term: blocks[i].clone(),
        };
        assert_eq!(*r, expect);
    }
}

fn every_kind() -> Vec<CfgTerminator> {
    vec![
        CfgTerminator::Goto { bb: 9 },
        CfgTerminator::SwitchInt { bbs: vec![] },
        CfgTerminator::SwitchInt { bbs: vec![7, 7, 0, 0xffff_ffff] },
        CfgTerminator::Resume,
        CfgTerminator::Abort,
        CfgTerminator::Return,
        CfgTerminator::Unreachable,
        CfgTerminator::Drop { bb: 1, unwind_bb: None },
        CfgTerminator::Drop { bb: 1, unwind_bb: Some(2) },
        CfgTerminator::DropAndReplace { bb: 3, unwind_bb: None },
        CfgTerminator::DropAndReplace { bb: 3, unwind_bb: Some(4) },
        CfgTerminator::Call {
            call_kind: CallKind::Known { crate_hash: T_HASH, def_idx: T_IDX },
            cleanup_bb: None,
        },
        CfgTerminator::Call {
            call_kind: CallKind::Known { crate_hash: T_HASH, def_idx: T_IDX },
            cleanup_bb: Some(6),
        },
        CfgTerminator::Call { call_kind: CallKind::Unknown, cleanup_bb: None },
        CfgTerminator::Call { call_kind: CallKind::Unknown, cleanup_bb: Some(8) },
        CfgTerminator::Assert { bb: 5, cleanup_bb: None },
        CfgTerminator::Assert { bb: 5, cleanup_bb: Some(6) },
        CfgTerminator::Yield { bb: 7, drop_bb: None },
        CfgTerminator::Yield { bb: 7, drop_bb: Some(8) },
        CfgTerminator::GeneratorDrop,
        CfgTerminator::FalseEdges { bb: 2, imaginary_bbs: vec![3, 4] },
        CfgTerminator::FalseEdges { bb: 2, imaginary_bbs: vec![] },
        CfgTerminator::FalseUnwind { bb: 1, unwind_bb: None },
        CfgTerminator::FalseUnwind { bb: 1, unwind_bb: Some(0) },
    ]
}

#[test]
fn every_edge_kind_round_trips() {
    let loc = MirLoc { crate_hash: H, def_idx: D, bb: 3 };
    for term in every_kind() {
        let mut sec = DataSection::new("s");
        emit_terminator(&mut sec, loc, &term);
        let bytes = sec.to_bytes();
        let (rec, end) = read_record(&bytes, 0).unwrap();
        assert_eq!(end, bytes.len());
        assert_eq!(rec, CfgRecord::Edge { loc, term: term.clone() });
    }
}

#[test]
fn tags_follow_the_table() {
    let loc = MirLoc { crate_hash: 0, def_idx: 0, bb: 0 };
    let tags: Vec<u8> = every_kind()
        .iter()
        .map(|t| {
            let mut sec = DataSection::new("s");
            emit_terminator(&mut sec, loc, t);
            sec.to_bytes()[0]
        })
        .collect();
    assert_eq!(
        tags,
        vec![0, 1, 1, 2, 3, 4, 5, 6, 7, 8, 9, 10, 11, 12, 13, 14, 15, 16, 17, 18, 19, 19, 20, 21]
    );
}

#[test]
fn false_edges_keep_real_and_imaginary_apart() {
    let loc = MirLoc { crate_hash: 1, def_idx: 2, bb: 3 };
    let mut sec = DataSection::new("s");
    emit_terminator(&mut sec, loc, &CfgTerminator::FalseEdges { bb: 10, imaginary_bbs: vec![11, 12] });
    let mut want = vec![19u8];
    loc_bytes(&mut want, 1, 2, 3);
    want.extend_from_slice(&10u32.to_le_bytes());
    want.extend_from_slice(&2usize.to_le_bytes());
    want.extend_from_slice(&11u32.to_le_bytes());
    want.extend_from_slice(&12u32.to_le_bytes());
    assert_eq!(sec.to_bytes(), want);
}

#[test]
fn definition_without_body_gives_one_no_mir_record() {
    let defs = vec![
        DefCfg { crate_hash: H, def_idx: 1, blocks: None },
        DefCfg { crate_hash: H, def_idx: 2, blocks: Some(vec![CfgTerminator::Goto { bb: 0 }]) },
    ];
    let bytes = emit_mir_cfg_section(&defs).to_bytes();
    let mut want = vec![254u8];
    want.extend_from_slice(&H.to_le_bytes());
    want.extend_from_slice(&1u32.to_le_bytes());
    want.push(0u8);
    loc_bytes(&mut want, H, 2, 0);
    want.extend_from_slice(&0u32.to_le_bytes());
    want.push(255u8);
    assert_eq!(bytes, want);

    let recs = decode_section(&bytes).unwrap();
    let no_mir: Vec<&CfgRecord> = recs
        .iter()
        .filter(|r| matches!(r, CfgRecord::NoMir { crate_hash, def_idx: 1 } if *crate_hash == H))
        .collect();
    assert_eq!(no_mir.len(), 1);
    assert!(!recs.iter().any(|r| matches!(r, CfgRecord::Edge { loc, .. } if loc.def_idx == 1)));
}

#[test]
fn each_block_is_the_source_of_one_record() {
    let defs = vec![
        DefCfg { crate_hash: H, def_idx: D, blocks: Some(scenario_blocks()) },
        DefCfg { crate_hash: T_HASH, def_idx: T_IDX, blocks: Some(every_kind()) },
        DefCfg { crate_hash: T_HASH, def_idx: 0, blocks: None },
    ];
    let recs = decode_section(&emit_mir_cfg_section(&defs).to_bytes()).unwrap();
    for d in &defs {
        if let Some(bs) = &d.blocks {
            for bb in 0..bs.len() as u32 {
                let n = recs
                    .iter()
                    .filter(|r| {
                        matches!(r, CfgRecord::Edge { loc, .. }
                            if loc.crate_hash == d.crate_hash && loc.def_idx == d.def_idx && loc.bb == bb)
                    })
                    .count();
                assert_eq!(n, 1);
            }
        }
    }
    assert_eq!(recs.len(), 5 + every_kind().len() + 1);
}

#[test]
fn sentinel_is_last_and_alone() {
    let empty = emit_mir_cfg_section(&vec![]).to_bytes();
    assert_eq!(empty, vec![255u8]);
    assert_eq!(decode_section(&empty), Some(vec![]));

    let defs = vec![DefCfg { crate_hash: H, def_idx: D, blocks: Some(scenario_blocks()) }];
    let bytes = emit_mir_cfg_section(&defs).to_bytes();
    assert_eq!(*bytes.last().unwrap(), 255u8);
    // Without its sentinel, or with bytes after it, the stream is not a section.
    assert_eq!(decode_section(&bytes[..bytes.len() - 1]), None);
    let mut longer = bytes.clone();
    longer.push(255u8);
    assert_eq!(decode_section(&longer), None);
    assert_eq!(decode_section(&[]), None);
}

#[test]
fn truncated_records_are_rejected() {
    let defs = vec![DefCfg { crate_hash: H, def_idx: D, blocks: Some(scenario_blocks()) }];
    let bytes = emit_mir_cfg_section(&defs).to_bytes();
    for cut in 1..bytes.len() - 1 {
        let mut b = bytes[..cut].to_vec();
        b.push(255u8);
        let r = decode_section(&b);
        if let Some(recs) = r {
            assert!(recs.len() < 5);
        }
    }
    assert_eq!(decode_section(&[22u8, 255u8]), None);
}

#[test]
fn export_is_deterministic() {
    let defs = vec![
        DefCfg { crate_hash: H, def_idx: D, blocks: Some(scenario_blocks()) },
        DefCfg { crate_hash: T_HASH, def_idx: 3, blocks: None },
    ];
    let a = emit_mir_cfg_section(&defs).to_bytes();
    let b = emit_mir_cfg_section(&defs.clone()).to_bytes();
    assert_eq!(a, b);
}

#[test]
fn simple_edges_have_fixed_layouts() {
    let loc = MirLoc { crate_hash: H, def_idx: D, bb: 6 };
    let mut sec = DataSection::new("s");
    emit_simple_static_edge(&mut sec, 0, loc, 9);
    let mut want = vec![0u8];
    loc_bytes(&mut want, H, D, 6);
    want.extend_from_slice(&9u32.to_le_bytes());
    assert_eq!(sec.to_bytes(), want);
    assert_eq!(want.len(), 21);

    let mut dyn_sec = DataSection::new("s");
    emit_simple_dynamic_edge(&mut dyn_sec, 4, loc);
    let mut want = vec![4u8];
    loc_bytes(&mut want, H, D, 6);
    assert_eq!(dyn_sec.to_bytes(), want);
    assert_eq!(dyn_sec.sec_name(), "s");
    let (rec, end) = read_record(&want, 0).unwrap();
    assert_eq!(end, 17);
    assert_eq!(rec, CfgRecord::Edge { loc, term: CfgTerminator::Return });
}
