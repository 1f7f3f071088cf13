//! What holds of every section that the emitter produces.
use vstd::prelude::*;
use crate::cfg::{
    block_records, def_records, defs_distinct, defs_records, defs_wf, def_wf, mir_loc, record_bytes,
    record_tag, record_wf, section_bytes, term_wf, DefView, MirLoc, RecordView, SENTINEL,
};
use crate::decode::{lemma_parse_section, lemma_take_record, parse_section, take_record};

verus! {

/// How many of `rs` satisfy `p`.
pub open spec fn count_where(rs: Seq<RecordView>, p: spec_fn(RecordView) -> bool) -> nat
    decreases rs.len(),
{
    if rs.len() == 0 {
        0
    } else {
        count_where(rs.drop_last(), p) + if p(rs.last()) {
            1nat
        } else {
            0nat
        }
    }
}

/// `r` is the record of the block at `loc`.
pub open spec fn is_edge_from(r: RecordView, loc: MirLoc) -> bool {
    match r {
        RecordView::Edge { loc: l, .. } => l == loc,
        _ => false,
    }
}

/// `r` is the record of some block of definition `def_idx` of unit `crate_hash`.
pub open spec fn is_edge_in(r: RecordView, crate_hash: u64, def_idx: u32) -> bool {
    match r {
        RecordView::Edge { loc, .. } => loc.crate_hash == crate_hash && loc.def_idx == def_idx,
        _ => false,
    }
}

/// `r` says that definition `def_idx` of unit `crate_hash` has no body.
pub open spec fn is_no_mir_for(r: RecordView, crate_hash: u64, def_idx: u32) -> bool {
    r == RecordView::NoMir { crate_hash, def_idx }
}

proof fn lemma_count_none(rs: Seq<RecordView>, p: spec_fn(RecordView) -> bool)
    requires
        forall|k: int| 0 <= k < rs.len() ==> !p(#[trigger] rs[k]),
    ensures
        count_where(rs, p) == 0,
    decreases rs.len(),
{
    if rs.len() > 0 {
        assert(!p(rs[rs.len() - 1]));
        lemma_count_none(rs.drop_last(), p);
    }
}

proof fn lemma_count_single(rs: Seq<RecordView>, p: spec_fn(RecordView) -> bool, b: int)
    requires
        0 <= b < rs.len(),
        p(rs[b]),
        forall|k: int| 0 <= k < rs.len() && k != b ==> !p(#[trigger] rs[k]),
    ensures
        count_where(rs, p) == 1,
    decreases rs.len(),
{
    let init = rs.drop_last();
    if b == rs.len() - 1 {
        lemma_count_none(init, p);
    } else {
        assert(!p(rs[rs.len() - 1]));
        lemma_count_single(init, p, b);
    }
}

proof fn lemma_count_add(a: Seq<RecordView>, b: Seq<RecordView>, p: spec_fn(RecordView) -> bool)
    ensures
        count_where(a + b, p) == count_where(a, p) + count_where(b, p),
    decreases b.len(),
{
    if b.len() == 0 {
        assert(a + b =~= a);
    } else {
        assert((a + b).drop_last() =~= a + b.drop_last());
        lemma_count_add(a, b.drop_last(), p);
    }
}

/// Sums the counts over definitions when only definition `i` contributes.
proof fn lemma_count_defs(ds: Seq<DefView>, p: spec_fn(RecordView) -> bool, i: int, c: nat)
    requires
        0 <= i < ds.len(),
        count_where(def_records(ds[i]), p) == c,
        forall|j: int|
            0 <= j < ds.len() && j != i ==> count_where(#[trigger] def_records(ds[j]), p) == 0,
    ensures
        count_where(defs_records(ds), p) == c,
    decreases ds.len(),
{
    let init = ds.drop_last();
    lemma_count_add(defs_records(init), def_records(ds.last()), p);
    if i == ds.len() - 1 {
        lemma_count_defs_none(init, p);
    } else {
        assert(count_where(def_records(ds[ds.len() - 1]), p) == 0);
        assert(init[i] == ds[i]);
        assert forall|j: int|
            0 <= j < init.len() && j != i implies count_where(#[trigger] def_records(init[j]), p)
            == 0 by {
            assert(init[j] == ds[j]);
        }
        lemma_count_defs(init, p, i, c);
    }
}

proof fn lemma_count_defs_none(ds: Seq<DefView>, p: spec_fn(RecordView) -> bool)
    requires
        forall|j: int| 0 <= j < ds.len() ==> count_where(#[trigger] def_records(ds[j]), p) == 0,
    ensures
        count_where(defs_records(ds), p) == 0,
    decreases ds.len(),
{
    if ds.len() > 0 {
        let init = ds.drop_last();
        lemma_count_add(defs_records(init), def_records(ds.last()), p);
        assert(count_where(def_records(ds[ds.len() - 1]), p) == 0);
        assert forall|j: int| 0 <= j < init.len() implies count_where(
            #[trigger] def_records(init[j]),
            p,
        ) == 0 by {
            assert(init[j] == ds[j]);
        }
        lemma_count_defs_none(init, p);
    }
}

/// Every record of a definition names that definition.
proof fn lemma_def_records_own(d: DefView, p: spec_fn(RecordView) -> bool)
    requires
        forall|r: RecordView| #[trigger] p(r) ==> (match r {
            RecordView::Edge { loc, .. } => (loc.crate_hash, loc.def_idx) != (
                d.crate_hash,
                d.def_idx,
            ),
            RecordView::NoMir { crate_hash, def_idx } => (crate_hash, def_idx) != (
                d.crate_hash,
                d.def_idx,
            ),
        }),
    ensures
        count_where(def_records(d), p) == 0,
{
    let rs = def_records(d);
    assert forall|k: int| 0 <= k < rs.len() implies !p(#[trigger] rs[k]) by {
        if p(rs[k]) {
            match d.blocks {
                Some(bs) => assert(rs[k] == RecordView::Edge {
                    loc: mir_loc(d.crate_hash, d.def_idx, k),
                    term: bs[k],
                }),
                None => assert(rs[k] == RecordView::NoMir {
                    crate_hash: d.crate_hash,
                    def_idx: d.def_idx,
                }),
            }
        }
    }
    lemma_count_none(rs, p);
}

/// The records of well-formed definitions can each be encoded.
proof fn lemma_defs_records_wf(ds: Seq<DefView>)
    requires
        defs_wf(ds),
    ensures
        forall|k: int|
            0 <= k < defs_records(ds).len() ==> #[trigger] record_wf(defs_records(ds)[k]),
    decreases ds.len(),
{
    if ds.len() > 0 {
        let init = ds.drop_last();
        assert forall|j: int| 0 <= j < init.len() implies #[trigger] def_wf(init[j]) by {
            assert(init[j] == ds[j]);
        }
        lemma_defs_records_wf(init);
        let d = ds.last();
        assert(def_wf(ds[ds.len() - 1]));
        let a = defs_records(init);
        let b = def_records(d);
        assert forall|k: int| 0 <= k < (a + b).len() implies #[trigger] record_wf((a + b)[k]) by {
            if k >= a.len() {
                match d.blocks {
                    Some(bs) => assert(term_wf(bs[k - a.len()])),
                    None => {},
                }
            }
        }
    }
}

/// Round trip: decoding the section of a single record gives back that record
/// exactly, whatever its kind; so does reading the record alone.
pub proof fn lemma_edge_round_trip(r: RecordView)
    requires
        record_wf(r),
    ensures
        take_record(record_bytes(r)) == Some((r, Seq::<u8>::empty())),
        parse_section(section_bytes(seq![r])) == Some(seq![r]),
{
    lemma_take_record(r, Seq::empty());
    assert(record_bytes(r) + Seq::<u8>::empty() =~= record_bytes(r));
    lemma_parse_section(seq![r]);
}

/// Every block of a definition that has a body is the source of exactly one
/// record of the section, and the section decodes to those records.
pub proof fn lemma_blocks_recorded_once(ds: Seq<DefView>, i: int, b: int)
    requires
        defs_wf(ds),
        defs_distinct(ds),
        0 <= i < ds.len(),
        ds[i].blocks is Some,
        0 <= b < ds[i].blocks.unwrap().len(),
    ensures
        parse_section(section_bytes(defs_records(ds))) == Some(defs_records(ds)),
        count_where(
            defs_records(ds),
            |r: RecordView| is_edge_from(r, mir_loc(ds[i].crate_hash, ds[i].def_idx, b)),
        ) == 1,
{
    lemma_defs_records_wf(ds);
    lemma_parse_section(defs_records(ds));
    let d = ds[i];
    let loc = mir_loc(d.crate_hash, d.def_idx, b);
    let p = |r: RecordView| is_edge_from(r, loc);
    let bs = d.blocks.unwrap();
    assert(def_wf(d));
    let own = block_records(d.crate_hash, d.def_idx, bs);
    assert forall|k: int| 0 <= k < own.len() && k != b implies !p(#[trigger] own[k]) by {
        assert(own[k] == RecordView::Edge {
            loc: mir_loc(d.crate_hash, d.def_idx, k),
            term: bs[k],
        });
    }
    assert(p(own[b]));
    lemma_count_single(own, p, b);
    assert forall|j: int| 0 <= j < ds.len() && j != i implies count_where(
        #[trigger] def_records(ds[j]),
        p,
    ) == 0 by {
        lemma_def_records_own(ds[j], p);
    }
    lemma_count_defs(ds, p, i, 1);
}

/// A definition without a body has exactly one `NoMir` record in the section
/// and no record of any block.
pub proof fn lemma_no_body_recorded_once(ds: Seq<DefView>, i: int)
    requires
        defs_wf(ds),
        defs_distinct(ds),
        0 <= i < ds.len(),
        ds[i].blocks is None,
    ensures
        parse_section(section_bytes(defs_records(ds))) == Some(defs_records(ds)),
        count_where(
            defs_records(ds),
            |r: RecordView| is_no_mir_for(r, ds[i].crate_hash, ds[i].def_idx),
        ) == 1,
        count_where(
            defs_records(ds),
            |r: RecordView| is_edge_in(r, ds[i].crate_hash, ds[i].def_idx),
        ) == 0,
{
    lemma_defs_records_wf(ds);
    lemma_parse_section(defs_records(ds));
    let d = ds[i];
    let p = |r: RecordView| is_no_mir_for(r, d.crate_hash, d.def_idx);
    let q = |r: RecordView| is_edge_in(r, d.crate_hash, d.def_idx);
    let own = def_records(d);
    assert(p(own[0]));
    lemma_count_single(own, p, 0);
    lemma_count_none(own, q);
    assert forall|j: int| 0 <= j < ds.len() && j != i implies count_where(
        #[trigger] def_records(ds[j]),
        p,
    ) == 0 && count_where(def_records(ds[j]), q) == 0 by {
        lemma_def_records_own(ds[j], p);
        lemma_def_records_own(ds[j], q);
    }
    lemma_count_defs(ds, p, i, 1);
    lemma_count_defs_none(ds, q);
}

/// The sentinel closes the section as its last byte, no record carries its tag,
/// and decoding stops at it having read every record.
pub proof fn lemma_sentinel_once_last(ds: Seq<DefView>)
    requires
        defs_wf(ds),
    ensures
        section_bytes(defs_records(ds)).last() == SENTINEL,
        forall|k: int|
            0 <= k < defs_records(ds).len() ==> record_tag(#[trigger] defs_records(ds)[k])
                != SENTINEL,
        parse_section(section_bytes(defs_records(ds))) == Some(defs_records(ds)),
{
    lemma_defs_records_wf(ds);
    lemma_parse_section(defs_records(ds));
    let rs = defs_records(ds);
    assert forall|k: int| 0 <= k < rs.len() implies record_tag(#[trigger] rs[k]) != SENTINEL by {
        lemma_take_record(rs[k], Seq::empty());
    }
}

/// Exporting the same definitions twice gives byte-identical sections.
pub proof fn lemma_export_deterministic(a: Seq<DefView>, b: Seq<DefView>)
    requires
        a == b,
    ensures
        section_bytes(defs_records(a)) == section_bytes(defs_records(b)),
{
}

} // verus!
