//! The control-flow records that a section holds, their mathematical model and
//! their wire encoding.
//!
//! A record starts with a one-byte tag. Every block record then names its source
//! block: unit hash (8 bytes), definition index (4 bytes), block index (4 bytes).
//! Integers are little-endian; a list is its length, in as many bytes as a
//! `usize` has on the target, followed by its entries, four bytes each. A
//! section is its records followed by one sentinel byte.
use vstd::prelude::*;
use crate::bytes::{le_bytes, u32_le, u64_le, usize_width};

verus! {

// Record tags. These values are the wire contract and are never renumbered.
pub const GOTO: u8 = 0;
pub const SWITCHINT: u8 = 1;
pub const RESUME: u8 = 2;
pub const ABORT: u8 = 3;
pub const RETURN: u8 = 4;
pub const UNREACHABLE: u8 = 5;
pub const DROP_NO_UNWIND: u8 = 6;
pub const DROP_WITH_UNWIND: u8 = 7;
pub const DROP_AND_REPLACE_NO_UNWIND: u8 = 8;
pub const DROP_AND_REPLACE_WITH_UNWIND: u8 = 9;
pub const CALL_NO_CLEANUP: u8 = 10;
pub const CALL_WITH_CLEANUP: u8 = 11;
pub const CALL_UNKNOWN_NO_CLEANUP: u8 = 12;
pub const CALL_UNKNOWN_WITH_CLEANUP: u8 = 13;
pub const ASSERT_NO_CLEANUP: u8 = 14;
pub const ASSERT_WITH_CLEANUP: u8 = 15;
pub const YIELD_NO_DROP: u8 = 16;
pub const YIELD_WITH_DROP: u8 = 17;
pub const GENERATOR_DROP: u8 = 18;
pub const FALSE_EDGES: u8 = 19;
pub const FALSE_UNWIND_NO_UNWIND: u8 = 20;
pub const FALSE_UNWIND_WITH_UNWIND: u8 = 21;
pub const NO_MIR: u8 = 254;
pub const SENTINEL: u8 = 255;

/// Identifies the start of a MIR block: the unit, the definition within it and
/// the block within the definition.
#[derive(Clone, Copy, Debug, PartialEq, Eq, Structural)]
pub struct MirLoc {
    pub crate_hash: u64,
    pub def_idx: u32,
    pub bb: u32,
}

/// Information about a call target.
#[derive(Clone, Copy, Debug, PartialEq, Eq, Structural)]
pub enum CallKind {
    /// A statically known callee.
    Known { crate_hash: u64, def_idx: u32 },
    /// A function pointer, a dynamic dispatch or anything else not known statically.
    Unknown,
}

/// Describes how a block is terminated.
#[derive(Clone, Debug, PartialEq, Eq)]
pub enum CfgTerminator {
    Goto { bb: u32 },
    SwitchInt { bbs: Vec<u32> },
    Resume,
    Abort,
    Return,
    Unreachable,
    Drop { bb: u32, unwind_bb: Option<u32> },
    DropAndReplace { bb: u32, unwind_bb: Option<u32> },
    Call { call_kind: CallKind, cleanup_bb: Option<u32> },
    Assert { bb: u32, cleanup_bb: Option<u32> },
    Yield { bb: u32, drop_bb: Option<u32> },
    GeneratorDrop,
    /// `bb` is the real successor; `imaginary_bbs` exist for static analysis only.
    FalseEdges { bb: u32, imaginary_bbs: Vec<u32> },
    FalseUnwind { bb: u32, unwind_bb: Option<u32> },
}

/// One record of a section.
#[derive(Clone, Debug, PartialEq, Eq)]
pub enum CfgRecord {
    /// The terminator of the block at `loc`.
    Edge { loc: MirLoc, term: CfgTerminator },
    /// The definition has no materialised body.
    NoMir { crate_hash: u64, def_idx: u32 },
}

/// The mathematical value of a `CfgTerminator`.
pub enum TermView {
    Goto { bb: u32 },
    SwitchInt { bbs: Seq<u32> },
    Resume,
    Abort,
    Return,
    Unreachable,
    Drop { bb: u32, unwind_bb: Option<u32> },
    DropAndReplace { bb: u32, unwind_bb: Option<u32> },
    Call { call_kind: CallKind, cleanup_bb: Option<u32> },
    Assert { bb: u32, cleanup_bb: Option<u32> },
    Yield { bb: u32, drop_bb: Option<u32> },
    GeneratorDrop,
    FalseEdges { bb: u32, imaginary_bbs: Seq<u32> },
    FalseUnwind { bb: u32, unwind_bb: Option<u32> },
}

/// The mathematical value of a `CfgRecord`.
pub enum RecordView {
    Edge { loc: MirLoc, term: TermView },
    NoMir { crate_hash: u64, def_idx: u32 },
}

impl View for CfgTerminator {
    type V = TermView;

    open spec fn view(&self) -> TermView {
        match *self {
            CfgTerminator::Goto { bb } => TermView::Goto { bb },
            CfgTerminator::SwitchInt { bbs } => TermView::SwitchInt { bbs: bbs@ },
            CfgTerminator::Resume => TermView::Resume,
            CfgTerminator::Abort => TermView::Abort,
            CfgTerminator::Return => TermView::Return,
            CfgTerminator::Unreachable => TermView::Unreachable,
            CfgTerminator::Drop { bb, unwind_bb } => TermView::Drop { bb, unwind_bb },
            CfgTerminator::DropAndReplace { bb, unwind_bb } => TermView::DropAndReplace {
                bb,
                unwind_bb,
            },
            CfgTerminator::Call { call_kind, cleanup_bb } => TermView::Call {
                call_kind,
                cleanup_bb,
            },
            CfgTerminator::Assert { bb, cleanup_bb } => TermView::Assert { bb, cleanup_bb },
            CfgTerminator::Yield { bb, drop_bb } => TermView::Yield { bb, drop_bb },
            CfgTerminator::GeneratorDrop => TermView::GeneratorDrop,
            CfgTerminator::FalseEdges { bb, imaginary_bbs } => TermView::FalseEdges {
                bb,
                imaginary_bbs: imaginary_bbs@,
            },
            CfgTerminator::FalseUnwind { bb, unwind_bb } => TermView::FalseUnwind {
                bb,
                unwind_bb,
            },
        }
    }
}

impl View for CfgRecord {
    type V = RecordView;

    open spec fn view(&self) -> RecordView {
        match *self {
            CfgRecord::Edge { loc, term } => RecordView::Edge { loc, term: term@ },
            CfgRecord::NoMir { crate_hash, def_idx } => RecordView::NoMir { crate_hash, def_idx },
        }
    }
}

/// Lists in the record fit their pointer-sized length prefix.
pub open spec fn term_wf(t: TermView) -> bool {
    match t {
        TermView::SwitchInt { bbs } => bbs.len() <= usize::MAX,
        TermView::FalseEdges { imaginary_bbs, .. } => imaginary_bbs.len() <= usize::MAX,
        _ => true,
    }
}

pub open spec fn record_wf(r: RecordView) -> bool {
    match r {
        RecordView::Edge { term, .. } => term_wf(term),
        RecordView::NoMir { .. } => true,
    }
}

/// The tag that opens the record of a terminator.
pub open spec fn term_tag(t: TermView) -> u8 {
    match t {
        TermView::Goto { .. } => GOTO,
        TermView::SwitchInt { .. } => SWITCHINT,
        TermView::Resume => RESUME,
        TermView::Abort => ABORT,
        TermView::Return => RETURN,
        TermView::Unreachable => UNREACHABLE,
        TermView::Drop { unwind_bb, .. } => if unwind_bb is Some {
            DROP_WITH_UNWIND
        } else {
            DROP_NO_UNWIND
        },
        TermView::DropAndReplace { unwind_bb, .. } => if unwind_bb is Some {
            DROP_AND_REPLACE_WITH_UNWIND
        } else {
            DROP_AND_REPLACE_NO_UNWIND
        },
        TermView::Call { call_kind, cleanup_bb } => match call_kind {
            CallKind::Known { .. } => if cleanup_bb is Some {
                CALL_WITH_CLEANUP
            } else {
                CALL_NO_CLEANUP
            },
            CallKind::Unknown => if cleanup_bb is Some {
                CALL_UNKNOWN_WITH_CLEANUP
            } else {
                CALL_UNKNOWN_NO_CLEANUP
            },
        },
        TermView::Assert { cleanup_bb, .. } => if cleanup_bb is Some {
            ASSERT_WITH_CLEANUP
        } else {
            ASSERT_NO_CLEANUP
        },
        TermView::Yield { drop_bb, .. } => if drop_bb is Some {
            YIELD_WITH_DROP
        } else {
            YIELD_NO_DROP
        },
        TermView::GeneratorDrop => GENERATOR_DROP,
        TermView::FalseEdges { .. } => FALSE_EDGES,
        TermView::FalseUnwind { unwind_bb, .. } => if unwind_bb is Some {
            FALSE_UNWIND_WITH_UNWIND
        } else {
            FALSE_UNWIND_NO_UNWIND
        },
    }
}

/// The bytes of a source location.
pub open spec fn loc_bytes(loc: MirLoc) -> Seq<u8> {
    u64_le(loc.crate_hash) + u32_le(loc.def_idx) + u32_le(loc.bb)
}

/// The bytes of an optional secondary block: present only when there is one.
pub open spec fn opt_bytes(o: Option<u32>) -> Seq<u8> {
    match o {
        Some(b) => u32_le(b),
        None => Seq::empty(),
    }
}

/// The entries of a list of blocks, four bytes each.
pub open spec fn u32s_bytes(l: Seq<u32>) -> Seq<u8>
    decreases l.len(),
{
    if l.len() == 0 {
        Seq::empty()
    } else {
        u32_le(l[0]) + u32s_bytes(l.drop_first())
    }
}

/// A list of blocks: its length, then its entries.
pub open spec fn list_bytes(l: Seq<u32>) -> Seq<u8> {
    le_bytes(l.len(), usize_width()) + u32s_bytes(l)
}

/// What follows the source location in the record of a terminator.
pub open spec fn payload_bytes(t: TermView) -> Seq<u8> {
    match t {
        TermView::Goto { bb } => u32_le(bb),
        TermView::SwitchInt { bbs } => list_bytes(bbs),
        TermView::Drop { bb, unwind_bb } => u32_le(bb) + opt_bytes(unwind_bb),
        TermView::DropAndReplace { bb, unwind_bb } => u32_le(bb) + opt_bytes(unwind_bb),
        TermView::Call { call_kind, cleanup_bb } => match call_kind {
            CallKind::Known { crate_hash, def_idx } => u64_le(crate_hash) + u32_le(def_idx)
                + opt_bytes(cleanup_bb),
            CallKind::Unknown => opt_bytes(cleanup_bb),
        },
        TermView::Assert { bb, cleanup_bb } => u32_le(bb) + opt_bytes(cleanup_bb),
        TermView::Yield { bb, drop_bb } => u32_le(bb) + opt_bytes(drop_bb),
        TermView::FalseEdges { bb, imaginary_bbs } => u32_le(bb) + list_bytes(imaginary_bbs),
        TermView::FalseUnwind { bb, unwind_bb } => u32_le(bb) + opt_bytes(unwind_bb),
        _ => Seq::empty(),
    }
}

/// The tag of a record.
pub open spec fn record_tag(r: RecordView) -> u8 {
    match r {
        RecordView::Edge { term, .. } => term_tag(term),
        RecordView::NoMir { .. } => NO_MIR,
    }
}

/// The encoding of one record.
pub open spec fn record_bytes(r: RecordView) -> Seq<u8> {
    match r {
        RecordView::Edge { loc, term } => seq![term_tag(term)] + loc_bytes(loc) + payload_bytes(
            term,
        ),
        RecordView::NoMir { crate_hash, def_idx } => seq![NO_MIR] + u64_le(crate_hash) + u32_le(
            def_idx,
        ),
    }
}

/// The encodings of `rs`, one after another.
pub open spec fn records_bytes(rs: Seq<RecordView>) -> Seq<u8>
    decreases rs.len(),
{
    if rs.len() == 0 {
        Seq::empty()
    } else {
        records_bytes(rs.drop_last()) + record_bytes(rs.last())
    }
}

/// A whole section: the records, then the sentinel.
pub open spec fn section_bytes(rs: Seq<RecordView>) -> Seq<u8> {
    records_bytes(rs) + seq![SENTINEL]
}

} // verus!

verus! {

pub proof fn lemma_u32s_bytes_add(a: Seq<u32>, b: Seq<u32>)
    ensures
        u32s_bytes(a + b) == u32s_bytes(a) + u32s_bytes(b),
    decreases a.len(),
{
    if a.len() == 0 {
        assert(a + b =~= b);
        assert(u32s_bytes(a) =~= Seq::<u8>::empty());
        assert(u32s_bytes(b) =~= Seq::<u8>::empty() + u32s_bytes(b));
    } else {
        assert((a + b).drop_first() =~= a.drop_first() + b);
        lemma_u32s_bytes_add(a.drop_first(), b);
        assert((a + b)[0] == a[0]);
        assert(u32s_bytes(a + b) =~= u32_le(a[0]) + u32s_bytes(a.drop_first() + b));
        assert(u32s_bytes(a + b) =~= u32s_bytes(a) + u32s_bytes(b));
    }
}

pub proof fn lemma_u32s_bytes_push(l: Seq<u32>, i: int)
    requires
        0 <= i < l.len(),
    ensures
        u32s_bytes(l.take(i + 1)) == u32s_bytes(l.take(i)) + u32_le(l[i]),
{
    assert(l.take(i + 1) =~= l.take(i) + seq![l[i]]);
    lemma_u32s_bytes_add(l.take(i), seq![l[i]]);
    let one = seq![l[i]];
    assert(one.drop_first() =~= Seq::<u32>::empty());
    assert(u32s_bytes(one.drop_first()) =~= Seq::<u8>::empty());
    assert(u32s_bytes(one) == u32_le(one[0]) + u32s_bytes(one.drop_first()));
    assert(u32s_bytes(one) =~= u32_le(l[i]));
}

} // verus!

verus! {

/// The control flow of one definition as the host provides it: its identity and,
/// when it has a materialised body, the terminator of each block in block order.
#[derive(Clone, Debug)]
pub struct DefCfg {
    pub crate_hash: u64,
    pub def_idx: u32,
    pub blocks: Option<Vec<CfgTerminator>>,
}

/// The mathematical value of a `DefCfg`.
pub struct DefView {
    pub crate_hash: u64,
    pub def_idx: u32,
    pub blocks: Option<Seq<TermView>>,
}

/// The values of a sequence of terminators.
pub open spec fn terms_view(ts: Seq<CfgTerminator>) -> Seq<TermView> {
    ts.map_values(|t: CfgTerminator| t@)
}

impl View for DefCfg {
    type V = DefView;

    open spec fn view(&self) -> DefView {
        DefView {
            crate_hash: self.crate_hash,
            def_idx: self.def_idx,
            blocks: match self.blocks {
                Some(bs) => Some(terms_view(bs@)),
                None => None,
            },
        }
    }
}

/// The values of a sequence of definitions.
pub open spec fn defs_view(ds: Seq<DefCfg>) -> Seq<DefView> {
    ds.map_values(|d: DefCfg| d@)
}

/// The values of a sequence of records.
pub open spec fn records_view(rs: Seq<CfgRecord>) -> Seq<RecordView> {
    rs.map_values(|r: CfgRecord| r@)
}

/// Every block index fits its four-byte field and every list its length prefix.
pub open spec fn def_wf(d: DefView) -> bool {
    match d.blocks {
        Some(bs) => bs.len() <= 0x1_0000_0000 && forall|i: int|
            0 <= i < bs.len() ==> #[trigger] term_wf(bs[i]),
        None => true,
    }
}

pub open spec fn defs_wf(ds: Seq<DefView>) -> bool {
    forall|i: int| 0 <= i < ds.len() ==> #[trigger] def_wf(ds[i])
}

/// No two definitions share an identity: the definitions form a set.
pub open spec fn defs_distinct(ds: Seq<DefView>) -> bool {
    forall|i: int, j: int|
        0 <= i < ds.len() && 0 <= j < ds.len() && i != j ==> (#[trigger] ds[i].crate_hash,
        ds[i].def_idx) != (#[trigger] ds[j].crate_hash, ds[j].def_idx)
}

/// The location of block `bb` of definition `def_idx` in unit `crate_hash`.
pub open spec fn mir_loc(crate_hash: u64, def_idx: u32, bb: int) -> MirLoc {
    MirLoc { crate_hash, def_idx, bb: bb as u32 }
}

/// One record per block, in block order, each naming its block as the source.
pub open spec fn block_records(crate_hash: u64, def_idx: u32, bs: Seq<TermView>) -> Seq<
    RecordView,
> {
    Seq::new(
        bs.len(),
        |i: int| RecordView::Edge { loc: mir_loc(crate_hash, def_idx, i), term: bs[i] },
    )
}

/// The records of one definition: its blocks' records, or a single `NoMir`.
pub open spec fn def_records(d: DefView) -> Seq<RecordView> {
    match d.blocks {
        Some(bs) => block_records(d.crate_hash, d.def_idx, bs),
        None => seq![RecordView::NoMir { crate_hash: d.crate_hash, def_idx: d.def_idx }],
    }
}

/// The records of all definitions, definition by definition.
pub open spec fn defs_records(ds: Seq<DefView>) -> Seq<RecordView>
    decreases ds.len(),
{
    if ds.len() == 0 {
        Seq::empty()
    } else {
        defs_records(ds.drop_last()) + def_records(ds.last())
    }
}

pub proof fn lemma_records_bytes_add(a: Seq<RecordView>, b: Seq<RecordView>)
    ensures
        records_bytes(a + b) == records_bytes(a) + records_bytes(b),
    decreases b.len(),
{
    if b.len() == 0 {
        assert(a + b =~= a);
        assert(records_bytes(a) + records_bytes(b) =~= records_bytes(a));
    } else {
        assert((a + b).drop_last() =~= a + b.drop_last());
        assert((a + b).last() == b.last());
        lemma_records_bytes_add(a, b.drop_last());
        assert(records_bytes(a + b) =~= records_bytes(a) + records_bytes(b));
    }
}

} // verus!
