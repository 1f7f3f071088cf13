//! Serialises the control flow of definitions into a section.
use vstd::prelude::*;
use crate::bytes::{u32_le, usize_le};
use crate::cfg::{
    block_records, def_records, def_wf, defs_distinct, defs_records, defs_view, defs_wf, list_bytes, loc_bytes,
    opt_bytes, record_bytes, records_bytes, section_bytes, term_wf, terms_view, u32s_bytes,
    CallKind, CfgTerminator, DefCfg, DefView, MirLoc, RecordView, ABORT, ASSERT_NO_CLEANUP,
    ASSERT_WITH_CLEANUP, CALL_NO_CLEANUP, CALL_UNKNOWN_NO_CLEANUP, CALL_UNKNOWN_WITH_CLEANUP,
    CALL_WITH_CLEANUP, DROP_AND_REPLACE_NO_UNWIND, DROP_AND_REPLACE_WITH_UNWIND, DROP_NO_UNWIND,
    DROP_WITH_UNWIND, FALSE_EDGES, FALSE_UNWIND_NO_UNWIND, FALSE_UNWIND_WITH_UNWIND,
    GENERATOR_DROP, GOTO, NO_MIR, RESUME, RETURN, SENTINEL, SWITCHINT, UNREACHABLE, YIELD_NO_DROP,
    YIELD_WITH_DROP,
};
use crate::datasection::DataSection;

verus! {

/// Emit a simple edge with a statically known destination.
pub fn emit_simple_static_edge(sec: &mut DataSection, kind: u8, loc: MirLoc, to_bb: u32)
    ensures
        final(sec).name() == old(sec).name(),
        final(sec).contents() == old(sec).contents() + seq![kind] + loc_bytes(loc) + u32_le(
            to_bb,
        ),
{
    emit_simple_dynamic_edge(sec, kind, loc);
    sec.write_u32(to_bb);
}

/// Emit a simple edge whose destination isn't statically known.
pub fn emit_simple_dynamic_edge(sec: &mut DataSection, kind: u8, loc: MirLoc)
    ensures
        final(sec).name() == old(sec).name(),
        final(sec).contents() == old(sec).contents() + seq![kind] + loc_bytes(loc),
{
    sec.write_u8(kind);
    sec.write_u64(loc.crate_hash);
    sec.write_u32(loc.def_idx);
    sec.write_u32(loc.bb);
    assert(sec.contents() =~= old(sec).contents() + seq![kind] + loc_bytes(loc));
}

/// Emit the secondary block of an edge, if it has one.
fn emit_opt_bb(sec: &mut DataSection, bb: Option<u32>)
    ensures
        final(sec).name() == old(sec).name(),
        final(sec).contents() == old(sec).contents() + opt_bytes(bb),
{
    if let Some(b) = bb {
        sec.write_u32(b);
    } else {
        assert(sec.contents() =~= old(sec).contents() + opt_bytes(bb));
    }
}

/// Emit a list of blocks: its length, then each block.
fn emit_bb_list(sec: &mut DataSection, bbs: &Vec<u32>)
    ensures
        final(sec).name() == old(sec).name(),
        final(sec).contents() == old(sec).contents() + list_bytes(bbs@),
{
    let ghost start = sec.contents();
    sec.write_usize(bbs.len());
    let mut i: usize = 0;
    while i < bbs.len()
        invariant
            i <= bbs@.len(),
            sec.name() == old(sec).name(),
            sec.contents() == start + usize_le(bbs@.len() as usize) + u32s_bytes(
                bbs@.take(i as int),
            ),
        decreases bbs@.len() - i,
    {
        proof {
            crate::cfg::lemma_u32s_bytes_push(bbs@, i as int);
        }
        let ghost before = sec.contents();
        sec.write_u32(bbs[i]);
        assert(sec.contents() =~= start + usize_le(bbs@.len() as usize) + u32s_bytes(
            bbs@.take(i + 1),
        ));
        i = i + 1;
    }
    assert(bbs@.take(bbs@.len() as int) =~= bbs@);
    assert(sec.contents() =~= start + list_bytes(bbs@));
}

/// Emit the record of the block at `loc`, which ends in `term`.
pub fn emit_terminator(sec: &mut DataSection, loc: MirLoc, term: &CfgTerminator)
    requires
        term_wf(term@),
    ensures
        final(sec).name() == old(sec).name(),
        final(sec).contents() == old(sec).contents() + record_bytes(
            RecordView::Edge { loc, term: term@ },
        ),
{
    let ghost start = sec.contents();
    match term {
        CfgTerminator::Goto { bb } => {
            emit_simple_static_edge(sec, GOTO, loc, *bb);
        },
        CfgTerminator::SwitchInt { bbs } => {
            emit_simple_dynamic_edge(sec, SWITCHINT, loc);
            emit_bb_list(sec, bbs);
        },
        CfgTerminator::Resume => emit_simple_dynamic_edge(sec, RESUME, loc),
        CfgTerminator::Abort => emit_simple_dynamic_edge(sec, ABORT, loc),
        CfgTerminator::Return => emit_simple_dynamic_edge(sec, RETURN, loc),
        CfgTerminator::Unreachable => emit_simple_dynamic_edge(sec, UNREACHABLE, loc),
        CfgTerminator::Drop { bb, unwind_bb } => {
            let kind = if unwind_bb.is_some() {
                DROP_WITH_UNWIND
            } else {
                DROP_NO_UNWIND
            };
            emit_simple_static_edge(sec, kind, loc, *bb);
            emit_opt_bb(sec, *unwind_bb);
        },
        CfgTerminator::DropAndReplace { bb, unwind_bb } => {
            let kind = if unwind_bb.is_some() {
                DROP_AND_REPLACE_WITH_UNWIND
            } else {
                DROP_AND_REPLACE_NO_UNWIND
            };
            emit_simple_static_edge(sec, kind, loc, *bb);
            emit_opt_bb(sec, *unwind_bb);
        },
        CfgTerminator::Call { call_kind, cleanup_bb } => {
            match call_kind {
                CallKind::Known { crate_hash, def_idx } => {
                    // A statically known call target.
                    let kind = if cleanup_bb.is_some() {
                        CALL_WITH_CLEANUP
                    } else {
                        CALL_NO_CLEANUP
                    };
                    emit_simple_dynamic_edge(sec, kind, loc);
                    // Destination: the callee's entry block is implied.
                    sec.write_u64(*crate_hash);
                    sec.write_u32(*def_idx);
                },
                CallKind::Unknown => {
                    // A kind of call that we can't statically know the target of.
                    let kind = if cleanup_bb.is_some() {
                        CALL_UNKNOWN_WITH_CLEANUP
                    } else {
                        CALL_UNKNOWN_NO_CLEANUP
                    };
                    emit_simple_dynamic_edge(sec, kind, loc);
                },
            }
            emit_opt_bb(sec, *cleanup_bb);
        },
        CfgTerminator::Assert { bb, cleanup_bb } => {
            let kind = if cleanup_bb.is_some() {
                ASSERT_WITH_CLEANUP
            } else {
                ASSERT_NO_CLEANUP
            };
            emit_simple_static_edge(sec, kind, loc, *bb);
            emit_opt_bb(sec, *cleanup_bb);
        },
        CfgTerminator::Yield { bb, drop_bb } => {
            let kind = if drop_bb.is_some() {
                YIELD_WITH_DROP
            } else {
                YIELD_NO_DROP
            };
            emit_simple_static_edge(sec, kind, loc, *bb);
            emit_opt_bb(sec, *drop_bb);
        },
        CfgTerminator::GeneratorDrop => emit_simple_dynamic_edge(sec, GENERATOR_DROP, loc),
        CfgTerminator::FalseEdges { bb, imaginary_bbs } => {
            emit_simple_static_edge(sec, FALSE_EDGES, loc, *bb);
            emit_bb_list(sec, imaginary_bbs);
        },
        CfgTerminator::FalseUnwind { bb, unwind_bb } => {
            let kind = if unwind_bb.is_some() {
                FALSE_UNWIND_WITH_UNWIND
            } else {
                FALSE_UNWIND_NO_UNWIND
            };
            emit_simple_static_edge(sec, kind, loc, *bb);
            emit_opt_bb(sec, *unwind_bb);
        },
    }
    assert(sec.contents() =~= start + record_bytes(RecordView::Edge { loc, term: term@ }));
}


/// The name of the section that holds the control flow.
pub const MIR_CFG_SECTION_NAME: &'static str = ".yk_mir_cfg";

/// Emit one record per block of a definition, in block order.
pub fn process_mir(
    sec: &mut DataSection,
    crate_hash: u64,
    def_idx: u32,
    blocks: &Vec<CfgTerminator>,
)
    requires
        def_wf(DefView { crate_hash, def_idx, blocks: Some(terms_view(blocks@)) }),
    ensures
        final(sec).name() == old(sec).name(),
        final(sec).contents() == old(sec).contents() + records_bytes(
            block_records(crate_hash, def_idx, terms_view(blocks@)),
        ),
{
    let ghost start = sec.contents();
    let ghost tv = terms_view(blocks@);
    let ghost recs = block_records(crate_hash, def_idx, tv);
    let mut i: usize = 0;
    while i < blocks.len()
        invariant
            i <= blocks@.len(),
            blocks@.len() <= 0x1_0000_0000,
            tv == terms_view(blocks@),
            recs == block_records(crate_hash, def_idx, tv),
            forall|j: int| 0 <= j < tv.len() ==> #[trigger] term_wf(tv[j]),
            sec.name() == old(sec).name(),
            sec.contents() == start + records_bytes(recs.take(i as int)),
        decreases blocks@.len() - i,
    {
        assert(term_wf(tv[i as int]));
        let loc = MirLoc { crate_hash, def_idx, bb: i as u32 };
        emit_terminator(sec, loc, &blocks[i]);
        assert(recs.take(i + 1).drop_last() =~= recs.take(i as int));
        assert(recs.take(i + 1).last() == recs[i as int]);
        i = i + 1;
    }
    assert(recs.take(blocks@.len() as int) =~= recs);
}

/// Serialises the control flow of the given set of definitions into a section:
/// the records of each definition in turn, then the sentinel.
pub fn emit_mir_cfg_section(def_ids: &Vec<DefCfg>) -> (r: DataSection)
    requires
        defs_wf(defs_view(def_ids@)),
        defs_distinct(defs_view(def_ids@)),
    ensures
        r.name() == MIR_CFG_SECTION_NAME@,
        r.contents() == section_bytes(defs_records(defs_view(def_ids@))),
{
    let ghost dv = defs_view(def_ids@);
    let mut sec = DataSection::new(MIR_CFG_SECTION_NAME);
    let mut i: usize = 0;
    while i < def_ids.len()
        invariant
            i <= def_ids@.len(),
            dv == defs_view(def_ids@),
            defs_wf(dv),
            sec.name() == MIR_CFG_SECTION_NAME@,
            sec.contents() == records_bytes(defs_records(dv.take(i as int))),
        decreases def_ids@.len() - i,
    {
        let def = &def_ids[i];
        let ghost before = sec.contents();
        assert(def_wf(dv[i as int]));
        assert(dv[i as int] == def@);
        match &def.blocks {
            Some(blocks) => {
                process_mir(&mut sec, def.crate_hash, def.def_idx, blocks);
            },
            None => {
                sec.write_u8(NO_MIR);
                sec.write_u64(def.crate_hash);
                sec.write_u32(def.def_idx);
                assert(records_bytes(def_records(def@)) =~= record_bytes(
                    RecordView::NoMir { crate_hash: def.crate_hash, def_idx: def.def_idx },
                )) by {
                    let one = def_records(def@);
                    assert(def@.blocks is None);
                    assert(one.len() == 1);
                    assert(one.drop_last() =~= Seq::<RecordView>::empty());
                    assert(records_bytes(one.drop_last()) =~= Seq::<u8>::empty());
                }
                assert(sec.contents() =~= before + records_bytes(def_records(def@)));
            },
        }
        proof {
            let t = dv.take(i + 1);
            assert(t.drop_last() =~= dv.take(i as int));
            assert(t.last() == dv[i as int]);
            crate::cfg::lemma_records_bytes_add(
                defs_records(dv.take(i as int)),
                def_records(dv[i as int]),
            );
        }
        i = i + 1;
    }
    sec.write_u8(SENTINEL);
    assert(dv.take(def_ids@.len() as int) =~= dv);
    sec
}

} // verus!
