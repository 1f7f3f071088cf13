//! Reading a section back: the parse that a consumer performs, tag by tag in
//! one linear pass, and the proof that it recovers exactly what was written.
use vstd::prelude::*;
use crate::bytes::{
    lemma_le_value_bound, lemma_usize_width, read_le, usize_bytes, usize_le, usize_width,
    le_bytes, le_value, lemma_le_bytes_len, lemma_le_round_trip, lemma_pow256_values, u32_le,
    u64_le,
};
use crate::cfg::{
    records_view, CfgRecord, CfgTerminator,
    list_bytes, loc_bytes, opt_bytes, payload_bytes, record_bytes, record_wf, records_bytes,
    section_bytes, term_tag, lemma_records_bytes_add, term_wf, u32s_bytes, CallKind, MirLoc, RecordView, TermView, ABORT,
    ASSERT_NO_CLEANUP, ASSERT_WITH_CLEANUP, CALL_NO_CLEANUP, CALL_UNKNOWN_NO_CLEANUP,
    CALL_UNKNOWN_WITH_CLEANUP, CALL_WITH_CLEANUP, DROP_AND_REPLACE_NO_UNWIND,
    DROP_AND_REPLACE_WITH_UNWIND, DROP_NO_UNWIND, DROP_WITH_UNWIND, FALSE_EDGES,
    FALSE_UNWIND_NO_UNWIND, FALSE_UNWIND_WITH_UNWIND, GENERATOR_DROP, GOTO, NO_MIR, RESUME, RETURN,
    SENTINEL, SWITCHINT, UNREACHABLE, YIELD_NO_DROP, YIELD_WITH_DROP,
};

verus! {

/// A `u32` from the front of `s`, and what follows it.
pub open spec fn take_u32(s: Seq<u8>) -> Option<(u32, Seq<u8>)> {
    if s.len() >= 4 {
        Some((le_value(s.take(4)) as u32, s.skip(4)))
    } else {
        None
    }
}

/// A `u64` from the front of `s`, and what follows it.
pub open spec fn take_u64(s: Seq<u8>) -> Option<(u64, Seq<u8>)> {
    if s.len() >= 8 {
        Some((le_value(s.take(8)) as u64, s.skip(8)))
    } else {
        None
    }
}

/// A pointer-sized value from the front of `s`, and what follows it.
pub open spec fn take_usize(s: Seq<u8>) -> Option<(usize, Seq<u8>)> {
    if s.len() >= usize_width() {
        Some((le_value(s.take(usize_width() as int)) as usize, s.skip(usize_width() as int)))
    } else {
        None
    }
}

/// A source location from the front of `s`.
pub open spec fn take_loc(s: Seq<u8>) -> Option<(MirLoc, Seq<u8>)> {
    match take_u64(s) {
        Some((h, s1)) => match take_u32(s1) {
            Some((d, s2)) => match take_u32(s2) {
                Some((b, s3)) => Some((MirLoc { crate_hash: h, def_idx: d, bb: b }, s3)),
                None => None,
            },
            None => None,
        },
        None => None,
    }
}

/// An optional block, read only when the tag said it is present.
pub open spec fn take_opt(s: Seq<u8>, present: bool) -> Option<(Option<u32>, Seq<u8>)> {
    if present {
        match take_u32(s) {
            Some((b, r)) => Some((Some(b), r)),
            None => None,
        }
    } else {
        Some((None, s))
    }
}

/// A primary block followed by an optional secondary block.
pub open spec fn take_bb_opt(s: Seq<u8>, present: bool) -> Option<(u32, Option<u32>, Seq<u8>)> {
    match take_u32(s) {
        Some((b, r)) => match take_opt(r, present) {
            Some((o, r2)) => Some((b, o, r2)),
            None => None,
        },
        None => None,
    }
}

/// `n` blocks from the front of `s`.
pub open spec fn take_u32s(s: Seq<u8>, n: nat) -> Option<(Seq<u32>, Seq<u8>)>
    decreases n,
{
    if n == 0 {
        Some((Seq::empty(), s))
    } else {
        match take_u32(s) {
            Some((v, r)) => match take_u32s(r, (n - 1) as nat) {
                Some((l, r2)) => Some((seq![v] + l, r2)),
                None => None,
            },
            None => None,
        }
    }
}

/// A length-prefixed list of blocks from the front of `s`.
pub open spec fn take_list(s: Seq<u8>) -> Option<(Seq<u32>, Seq<u8>)> {
    match take_usize(s) {
        Some((n, r)) => take_u32s(r, n as nat),
        None => None,
    }
}

/// What follows the source location in a record with tag `tag`.
pub open spec fn take_payload(tag: u8, s: Seq<u8>) -> Option<(TermView, Seq<u8>)> {
    if tag == GOTO {
        match take_u32(s) {
            Some((bb, r)) => Some((TermView::Goto { bb }, r)),
            None => None,
        }
    } else if tag == SWITCHINT {
        match take_list(s) {
            Some((bbs, r)) => Some((TermView::SwitchInt { bbs }, r)),
            None => None,
        }
    } else if tag == RESUME {
        Some((TermView::Resume, s))
    } else if tag == ABORT {
        Some((TermView::Abort, s))
    } else if tag == RETURN {
        Some((TermView::Return, s))
    } else if tag == UNREACHABLE {
        Some((TermView::Unreachable, s))
    } else if tag == DROP_NO_UNWIND || tag == DROP_WITH_UNWIND {
        match take_bb_opt(s, tag == DROP_WITH_UNWIND) {
            Some((bb, unwind_bb, r)) => Some((TermView::Drop { bb, unwind_bb }, r)),
            None => None,
        }
    } else if tag == DROP_AND_REPLACE_NO_UNWIND || tag == DROP_AND_REPLACE_WITH_UNWIND {
        match take_bb_opt(s, tag == DROP_AND_REPLACE_WITH_UNWIND) {
            Some((bb, unwind_bb, r)) => Some((TermView::DropAndReplace { bb, unwind_bb }, r)),
            None => None,
        }
    } else if tag == CALL_NO_CLEANUP || tag == CALL_WITH_CLEANUP {
        match take_u64(s) {
            Some((h, r1)) => match take_u32(r1) {
                Some((d, r2)) => match take_opt(r2, tag == CALL_WITH_CLEANUP) {
                    Some((c, r3)) => Some(
                        (
                            TermView::Call {
                                call_kind: CallKind::Known { crate_hash: h, def_idx: d },
                                cleanup_bb: c,
                            },
                            r3,
                        ),
                    ),
                    None => None,
                },
                None => None,
            },
            None => None,
        }
    } else if tag == CALL_UNKNOWN_NO_CLEANUP || tag == CALL_UNKNOWN_WITH_CLEANUP {
        match take_opt(s, tag == CALL_UNKNOWN_WITH_CLEANUP) {
            Some((c, r)) => Some((TermView::Call { call_kind: CallKind::Unknown, cleanup_bb: c }, r)),
            None => None,
        }
    } else if tag == ASSERT_NO_CLEANUP || tag == ASSERT_WITH_CLEANUP {
        match take_bb_opt(s, tag == ASSERT_WITH_CLEANUP) {
            Some((bb, cleanup_bb, r)) => Some((TermView::Assert { bb, cleanup_bb }, r)),
            None => None,
        }
    } else if tag == YIELD_NO_DROP || tag == YIELD_WITH_DROP {
        match take_bb_opt(s, tag == YIELD_WITH_DROP) {
            Some((bb, drop_bb, r)) => Some((TermView::Yield { bb, drop_bb }, r)),
            None => None,
        }
    } else if tag == GENERATOR_DROP {
        Some((TermView::GeneratorDrop, s))
    } else if tag == FALSE_EDGES {
        match take_u32(s) {
            Some((bb, r1)) => match take_list(r1) {
                Some((imaginary_bbs, r2)) => Some((TermView::FalseEdges { bb, imaginary_bbs }, r2)),
                None => None,
            },
            None => None,
        }
    } else if tag == FALSE_UNWIND_NO_UNWIND || tag == FALSE_UNWIND_WITH_UNWIND {
        match take_bb_opt(s, tag == FALSE_UNWIND_WITH_UNWIND) {
            Some((bb, unwind_bb, r)) => Some((TermView::FalseUnwind { bb, unwind_bb }, r)),
            None => None,
        }
    } else {
        None
    }
}

/// One record from the front of `s`, and what follows it.
pub open spec fn take_record(s: Seq<u8>) -> Option<(RecordView, Seq<u8>)> {
    if s.len() == 0 {
        None
    } else if s[0] == NO_MIR {
        match take_u64(s.drop_first()) {
            Some((h, r1)) => match take_u32(r1) {
                Some((d, r2)) => Some((RecordView::NoMir { crate_hash: h, def_idx: d }, r2)),
                None => None,
            },
            None => None,
        }
    } else {
        match take_loc(s.drop_first()) {
            Some((loc, r1)) => match take_payload(s[0], r1) {
                Some((term, r2)) => Some((RecordView::Edge { loc, term }, r2)),
                None => None,
            },
            None => None,
        }
    }
}

/// The records of a whole section, read until the sentinel, which must be the
/// last byte; `None` when `s` is not a well-formed section.
pub open spec fn parse_section(s: Seq<u8>) -> Option<Seq<RecordView>>
    decreases s.len(),
{
    if s.len() == 0 {
        None
    } else if s[0] == SENTINEL {
        if s.len() == 1 {
            Some(Seq::empty())
        } else {
            None
        }
    } else {
        match take_record(s) {
            Some((r, rest)) => if rest.len() < s.len() {
                match parse_section(rest) {
                    Some(rs) => Some(seq![r] + rs),
                    None => None,
                }
            } else {
                None
            },
            None => None,
        }
    }
}

pub proof fn lemma_take_u32(v: u32, rest: Seq<u8>)
    ensures
        take_u32(u32_le(v) + rest) == Some((v, rest)),
{
    let b = u32_le(v);
    lemma_le_bytes_len(v as nat, 4);
    lemma_pow256_values();
    lemma_le_round_trip(v as nat, 4);
    assert((b + rest).take(4) =~= b);
    assert((b + rest).skip(4) =~= rest);
}

pub proof fn lemma_take_u64(v: u64, rest: Seq<u8>)
    ensures
        take_u64(u64_le(v) + rest) == Some((v, rest)),
{
    let b = u64_le(v);
    lemma_le_bytes_len(v as nat, 8);
    lemma_pow256_values();
    lemma_le_round_trip(v as nat, 8);
    assert((b + rest).take(8) =~= b);
    assert((b + rest).skip(8) =~= rest);
}

pub proof fn lemma_take_usize(v: usize, rest: Seq<u8>)
    ensures
        take_usize(usize_le(v) + rest) == Some((v, rest)),
{
    let b = usize_le(v);
    let w = usize_width();
    lemma_usize_width();
    lemma_le_bytes_len(v as nat, w);
    lemma_le_round_trip(v as nat, w);
    assert((b + rest).take(w as int) =~= b);
    assert((b + rest).skip(w as int) =~= rest);
}

pub proof fn lemma_take_opt(o: Option<u32>, rest: Seq<u8>)
    ensures
        take_opt(opt_bytes(o) + rest, o is Some) == Some((o, rest)),
{
    match o {
        Some(b) => lemma_take_u32(b, rest),
        None => assert(opt_bytes(o) + rest =~= rest),
    }
}

pub proof fn lemma_take_bb_opt(bb: u32, o: Option<u32>, rest: Seq<u8>)
    ensures
        take_bb_opt(u32_le(bb) + opt_bytes(o) + rest, o is Some) == Some((bb, o, rest)),
{
    assert(u32_le(bb) + opt_bytes(o) + rest =~= u32_le(bb) + (opt_bytes(o) + rest));
    lemma_take_u32(bb, opt_bytes(o) + rest);
    lemma_take_opt(o, rest);
}

pub proof fn lemma_take_u32s(l: Seq<u32>, rest: Seq<u8>)
    ensures
        take_u32s(u32s_bytes(l) + rest, l.len()) == Some((l, rest)),
    decreases l.len(),
{
    if l.len() == 0 {
        assert(u32s_bytes(l) + rest =~= rest);
    } else {
        let tail = l.drop_first();
        assert(u32s_bytes(l) + rest =~= u32_le(l[0]) + (u32s_bytes(tail) + rest));
        lemma_take_u32(l[0], u32s_bytes(tail) + rest);
        lemma_take_u32s(tail, rest);
        assert(seq![l[0]] + tail =~= l);
    }
}

pub proof fn lemma_take_list(l: Seq<u32>, rest: Seq<u8>)
    requires
        l.len() <= usize::MAX,
    ensures
        take_list(list_bytes(l) + rest) == Some((l, rest)),
{
    let n = l.len() as usize;
    assert(le_bytes(l.len(), usize_width()) == usize_le(n));
    assert(list_bytes(l) + rest =~= usize_le(n) + (u32s_bytes(l) + rest));
    lemma_take_usize(n, u32s_bytes(l) + rest);
    lemma_take_u32s(l, rest);
}

pub proof fn lemma_take_loc(loc: MirLoc, rest: Seq<u8>)
    ensures
        take_loc(loc_bytes(loc) + rest) == Some((loc, rest)),
{
    let r2 = u32_le(loc.bb) + rest;
    let r1 = u32_le(loc.def_idx) + r2;
    assert(loc_bytes(loc) + rest =~= u64_le(loc.crate_hash) + r1);
    lemma_take_u64(loc.crate_hash, r1);
    lemma_take_u32(loc.def_idx, r2);
    lemma_take_u32(loc.bb, rest);
}

/// Reading the payload that a terminator was encoded with gives it back.
pub proof fn lemma_take_payload(t: TermView, rest: Seq<u8>)
    requires
        term_wf(t),
    ensures
        take_payload(term_tag(t), payload_bytes(t) + rest) == Some((t, rest)),
{
    match t {
        TermView::Goto { bb } => lemma_take_u32(bb, rest),
        TermView::SwitchInt { bbs } => lemma_take_list(bbs, rest),
        TermView::Drop { bb, unwind_bb } => lemma_take_bb_opt(bb, unwind_bb, rest),
        TermView::DropAndReplace { bb, unwind_bb } => lemma_take_bb_opt(bb, unwind_bb, rest),
        TermView::Call { call_kind, cleanup_bb } => match call_kind {
            CallKind::Known { crate_hash, def_idx } => {
                let r2 = opt_bytes(cleanup_bb) + rest;
                let r1 = u32_le(def_idx) + r2;
                assert(payload_bytes(t) + rest =~= u64_le(crate_hash) + r1);
                lemma_take_u64(crate_hash, r1);
                lemma_take_u32(def_idx, r2);
                lemma_take_opt(cleanup_bb, rest);
            },
            CallKind::Unknown => lemma_take_opt(cleanup_bb, rest),
        },
        TermView::Assert { bb, cleanup_bb } => lemma_take_bb_opt(bb, cleanup_bb, rest),
        TermView::Yield { bb, drop_bb } => lemma_take_bb_opt(bb, drop_bb, rest),
        TermView::FalseEdges { bb, imaginary_bbs } => {
            assert(payload_bytes(t) + rest =~= u32_le(bb) + (list_bytes(imaginary_bbs) + rest));
            lemma_take_u32(bb, list_bytes(imaginary_bbs) + rest);
            lemma_take_list(imaginary_bbs, rest);
        },
        TermView::FalseUnwind { bb, unwind_bb } => lemma_take_bb_opt(bb, unwind_bb, rest),
        _ => assert(payload_bytes(t) + rest =~= rest),
    }
}

/// Reading a record from its own encoding gives it back, and leaves exactly
/// what followed it.
pub proof fn lemma_take_record(r: RecordView, rest: Seq<u8>)
    requires
        record_wf(r),
    ensures
        take_record(record_bytes(r) + rest) == Some((r, rest)),
        record_bytes(r).len() > 0,
        record_bytes(r)[0] != SENTINEL,
{
    let s = record_bytes(r) + rest;
    match r {
        RecordView::Edge { loc, term } => {
            let p = payload_bytes(term) + rest;
            assert(s.drop_first() =~= loc_bytes(loc) + p);
            lemma_take_loc(loc, p);
            lemma_take_payload(term, rest);
        },
        RecordView::NoMir { crate_hash, def_idx } => {
            assert(s.drop_first() =~= u64_le(crate_hash) + (u32_le(def_idx) + rest));
            lemma_take_u64(crate_hash, u32_le(def_idx) + rest);
            lemma_take_u32(def_idx, rest);
        },
    }
}

/// A section parses back into exactly the records it was built from.
pub proof fn lemma_parse_section(rs: Seq<RecordView>)
    requires
        forall|i: int| 0 <= i < rs.len() ==> #[trigger] record_wf(rs[i]),
    ensures
        parse_section(section_bytes(rs)) == Some(rs),
    decreases rs.len(),
{
    if rs.len() == 0 {
        assert(records_bytes(rs) =~= Seq::<u8>::empty());
        assert(section_bytes(rs) =~= seq![SENTINEL]);
    } else {
        let first = seq![rs[0]];
        let tail = rs.drop_first();
        assert(first + tail =~= rs);
        lemma_records_bytes_add(first, tail);
        assert(first.drop_last() =~= Seq::<RecordView>::empty());
        assert(records_bytes(first.drop_last()) =~= Seq::<u8>::empty());
        assert(records_bytes(first) =~= record_bytes(rs[0]));
        let s = section_bytes(rs);
        assert(s =~= record_bytes(rs[0]) + section_bytes(tail));
        assert(record_wf(rs[0]));
        lemma_take_record(rs[0], section_bytes(tail));
        assert forall|i: int| 0 <= i < tail.len() implies #[trigger] record_wf(tail[i]) by {
            assert(tail[i] == rs[i + 1]);
            assert(record_wf(rs[i + 1]));
        }
        lemma_parse_section(tail);
        assert(s[0] == record_bytes(rs[0])[0]);
        assert(seq![rs[0]] + tail =~= rs);
    }
}

/// What remains of a parse once `acc` has been read before it.
pub open spec fn after<T>(acc: Seq<T>, o: Option<(Seq<T>, Seq<u8>)>) -> Option<(Seq<T>, Seq<u8>)> {
    match o {
        Some((l, r)) => Some((acc + l, r)),
        None => None,
    }
}

/// A whole-section parse once `acc` has been read before it.
pub open spec fn after_records(acc: Seq<RecordView>, o: Option<Seq<RecordView>>) -> Option<
    Seq<RecordView>,
> {
    match o {
        Some(rs) => Some(acc + rs),
        None => None,
    }
}

fn read_u32(b: &[u8], pos: usize) -> (r: Option<(u32, usize)>)
    requires
        pos <= b@.len(),
    ensures
        match r {
            Some((v, p)) => pos < p <= b@.len() && take_u32(b@.skip(pos as int)) == Some(
                (v, b@.skip(p as int)),
            ),
            None => take_u32(b@.skip(pos as int)) is None,
        },
{
    if b.len() - pos < 4 {
        return None;
    }
    let v = read_le(b, pos, 4);
    proof {
        assert(b@.skip(pos as int).take(4) =~= b@.subrange(pos as int, pos + 4));
        assert(b@.skip(pos as int).skip(4) =~= b@.skip(pos + 4));
        lemma_le_value_bound(b@.subrange(pos as int, pos + 4));
        lemma_pow256_values();
    }
    Some((v as u32, pos + 4))
}

fn read_u64(b: &[u8], pos: usize) -> (r: Option<(u64, usize)>)
    requires
        pos <= b@.len(),
    ensures
        match r {
            Some((v, p)) => pos < p <= b@.len() && take_u64(b@.skip(pos as int)) == Some(
                (v, b@.skip(p as int)),
            ),
            None => take_u64(b@.skip(pos as int)) is None,
        },
{
    if b.len() - pos < 8 {
        return None;
    }
    let v = read_le(b, pos, 8);
    proof {
        assert(b@.skip(pos as int).take(8) =~= b@.subrange(pos as int, pos + 8));
        assert(b@.skip(pos as int).skip(8) =~= b@.skip(pos + 8));
    }
    Some((v, pos + 8))
}

fn read_usize(b: &[u8], pos: usize) -> (r: Option<(usize, usize)>)
    requires
        pos <= b@.len(),
    ensures
        match r {
            Some((v, p)) => pos < p <= b@.len() && take_usize(b@.skip(pos as int)) == Some(
                (v, b@.skip(p as int)),
            ),
            None => take_usize(b@.skip(pos as int)) is None,
        },
{
    let w = usize_bytes();
    proof {
        lemma_usize_width();
    }
    if b.len() - pos < w {
        return None;
    }
    let v = read_le(b, pos, w);
    proof {
        assert(b@.skip(pos as int).take(w as int) =~= b@.subrange(pos as int, pos + w));
        assert(b@.skip(pos as int).skip(w as int) =~= b@.skip(pos + w));
        lemma_le_value_bound(b@.subrange(pos as int, pos + w));
    }
    Some((v as usize, pos + w))
}

fn read_opt(b: &[u8], pos: usize, present: bool) -> (r: Option<(Option<u32>, usize)>)
    requires
        pos <= b@.len(),
    ensures
        match r {
            Some((v, p)) => pos <= p <= b@.len() && take_opt(b@.skip(pos as int), present)
                == Some((v, b@.skip(p as int))),
            None => take_opt(b@.skip(pos as int), present) is None,
        },
{
    if present {
        match read_u32(b, pos) {
            Some((v, p)) => Some((Some(v), p)),
            None => None,
        }
    } else {
        Some((None, pos))
    }
}

fn read_bb_opt(b: &[u8], pos: usize, present: bool) -> (r: Option<(u32, Option<u32>, usize)>)
    requires
        pos <= b@.len(),
    ensures
        match r {
            Some((v, o, p)) => pos < p <= b@.len() && take_bb_opt(b@.skip(pos as int), present)
                == Some((v, o, b@.skip(p as int))),
            None => take_bb_opt(b@.skip(pos as int), present) is None,
        },
{
    match read_u32(b, pos) {
        Some((v, p1)) => match read_opt(b, p1, present) {
            Some((o, p2)) => Some((v, o, p2)),
            None => None,
        },
        None => None,
    }
}

fn read_u32s(b: &[u8], pos: usize, n: usize) -> (r: Option<(Vec<u32>, usize)>)
    requires
        pos <= b@.len(),
    ensures
        match r {
            Some((l, p)) => pos <= p <= b@.len() && take_u32s(b@.skip(pos as int), n as nat)
                == Some((l@, b@.skip(p as int))),
            None => take_u32s(b@.skip(pos as int), n as nat) is None,
        },
{
    let mut out: Vec<u32> = Vec::new();
    let mut cur: usize = pos;
    let mut i: usize = 0;
    while i < n
        invariant
            pos <= cur <= b@.len(),
            i <= n,
            take_u32s(b@.skip(pos as int), n as nat) == after(
                out@,
                take_u32s(b@.skip(cur as int), (n - i) as nat),
            ),
        decreases n - i,
    {
        match read_u32(b, cur) {
            Some((v, p)) => {
                let ghost rest = take_u32s(b@.skip(p as int), (n - i - 1) as nat);
                assert(take_u32s(b@.skip(cur as int), (n - i) as nat) == after(seq![v], rest));
                proof {
                    match rest {
                        Some((l, r)) => assert(out@ + (seq![v] + l) =~= out@.push(v) + l),
                        None => {},
                    }
                }
                out.push(v);
                cur = p;
            },
            None => {
                return None;
            },
        }
        i = i + 1;
    }
    assert(out@ + Seq::<u32>::empty() =~= out@);
    Some((out, cur))
}

fn read_list(b: &[u8], pos: usize) -> (r: Option<(Vec<u32>, usize)>)
    requires
        pos <= b@.len(),
    ensures
        match r {
            Some((l, p)) => pos <= p <= b@.len() && take_list(b@.skip(pos as int)) == Some(
                (l@, b@.skip(p as int)),
            ),
            None => take_list(b@.skip(pos as int)) is None,
        },
{
    match read_usize(b, pos) {
        Some((n, p)) => read_u32s(b, p, n),
        None => None,
    }
}

fn read_payload(b: &[u8], pos: usize, tag: u8) -> (r: Option<(CfgTerminator, usize)>)
    requires
        pos <= b@.len(),
    ensures
        match r {
            Some((t, p)) => pos <= p <= b@.len() && take_payload(tag, b@.skip(pos as int))
                == Some((t@, b@.skip(p as int))),
            None => take_payload(tag, b@.skip(pos as int)) is None,
        },
{
    if tag == GOTO {
        match read_u32(b, pos) {
            Some((bb, p)) => Some((CfgTerminator::Goto { bb }, p)),
            None => None,
        }
    } else if tag == SWITCHINT {
        match read_list(b, pos) {
            Some((bbs, p)) => Some((CfgTerminator::SwitchInt { bbs }, p)),
            None => None,
        }
    } else if tag == RESUME {
        Some((CfgTerminator::Resume, pos))
    } else if tag == ABORT {
        Some((CfgTerminator::Abort, pos))
    } else if tag == RETURN {
        Some((CfgTerminator::Return, pos))
    } else if tag == UNREACHABLE {
        Some((CfgTerminator::Unreachable, pos))
    } else if tag == DROP_NO_UNWIND || tag == DROP_WITH_UNWIND {
        match read_bb_opt(b, pos, tag == DROP_WITH_UNWIND) {
            Some((bb, unwind_bb, p)) => Some((CfgTerminator::Drop { bb, unwind_bb }, p)),
            None => None,
        }
    } else if tag == DROP_AND_REPLACE_NO_UNWIND || tag == DROP_AND_REPLACE_WITH_UNWIND {
        match read_bb_opt(b, pos, tag == DROP_AND_REPLACE_WITH_UNWIND) {
            Some((bb, unwind_bb, p)) => Some((CfgTerminator::DropAndReplace { bb, unwind_bb }, p)),
            None => None,
        }
    } else if tag == CALL_NO_CLEANUP || tag == CALL_WITH_CLEANUP {
        match read_u64(b, pos) {
            Some((h, p1)) => match read_u32(b, p1) {
                Some((d, p2)) => match read_opt(b, p2, tag == CALL_WITH_CLEANUP) {
                    Some((c, p3)) => Some(
                        (
                            CfgTerminator::Call {
                                call_kind: CallKind::Known { crate_hash: h, def_idx: d },
                                cleanup_bb: c,
                            },
                            p3,
                        ),
                    ),
                    None => None,
                },
                None => None,
            },
            None => None,
        }
    } else if tag == CALL_UNKNOWN_NO_CLEANUP || tag == CALL_UNKNOWN_WITH_CLEANUP {
        match read_opt(b, pos, tag == CALL_UNKNOWN_WITH_CLEANUP) {
            Some((c, p)) => Some(
                (CfgTerminator::Call { call_kind: CallKind::Unknown, cleanup_bb: c }, p),
            ),
            None => None,
        }
    } else if tag == ASSERT_NO_CLEANUP || tag == ASSERT_WITH_CLEANUP {
        match read_bb_opt(b, pos, tag == ASSERT_WITH_CLEANUP) {
            Some((bb, cleanup_bb, p)) => Some((CfgTerminator::Assert { bb, cleanup_bb }, p)),
            None => None,
        }
    } else if tag == YIELD_NO_DROP || tag == YIELD_WITH_DROP {
        match read_bb_opt(b, pos, tag == YIELD_WITH_DROP) {
            Some((bb, drop_bb, p)) => Some((CfgTerminator::Yield { bb, drop_bb }, p)),
            None => None,
        }
    } else if tag == GENERATOR_DROP {
        Some((CfgTerminator::GeneratorDrop, pos))
    } else if tag == FALSE_EDGES {
        match read_u32(b, pos) {
            Some((bb, p1)) => match read_list(b, p1) {
                Some((imaginary_bbs, p2)) => Some(
                    (CfgTerminator::FalseEdges { bb, imaginary_bbs }, p2),
                ),
                None => None,
            },
            None => None,
        }
    } else if tag == FALSE_UNWIND_NO_UNWIND || tag == FALSE_UNWIND_WITH_UNWIND {
        match read_bb_opt(b, pos, tag == FALSE_UNWIND_WITH_UNWIND) {
            Some((bb, unwind_bb, p)) => Some((CfgTerminator::FalseUnwind { bb, unwind_bb }, p)),
            None => None,
        }
    } else {
        None
    }
}

/// Reads the record that starts at `pos`; `None` when the bytes there are
/// not a complete record.
pub fn read_record(b: &[u8], pos: usize) -> (r: Option<(CfgRecord, usize)>)
    requires
        pos <= b@.len(),
    ensures
        match r {
            Some((rec, p)) => pos < p <= b@.len() && take_record(b@.skip(pos as int)) == Some(
                (rec@, b@.skip(p as int)),
            ),
            None => take_record(b@.skip(pos as int)) is None,
        },
{
    if pos >= b.len() {
        return None;
    }
    let tag = b[pos];
    let ghost s = b@.skip(pos as int);
    assert(s.drop_first() =~= b@.skip(pos + 1));
    if tag == NO_MIR {
        match read_u64(b, pos + 1) {
            Some((h, p1)) => match read_u32(b, p1) {
                Some((d, p2)) => Some((CfgRecord::NoMir { crate_hash: h, def_idx: d }, p2)),
                None => None,
            },
            None => None,
        }
    } else {
        match read_u64(b, pos + 1) {
            Some((h, p1)) => match read_u32(b, p1) {
                Some((d, p2)) => match read_u32(b, p2) {
                    Some((bb, p3)) => {
                        let loc = MirLoc { crate_hash: h, def_idx: d, bb };
                        match read_payload(b, p3, tag) {
                            Some((term, p4)) => Some((CfgRecord::Edge { loc, term }, p4)),
                            None => None,
                        }
                    },
                    None => None,
                },
                None => None,
            },
            None => None,
        }
    }
}

/// Decodes a whole section in one linear pass: `Some` with its records exactly
/// when the bytes are a sequence of complete records closed by the sentinel as
/// the last byte.
pub fn decode_section(b: &[u8]) -> (r: Option<Vec<CfgRecord>>)
    ensures
        match r {
            Some(rs) => parse_section(b@) == Some(records_view(rs@)),
            None => parse_section(b@) is None,
        },
{
    let mut out: Vec<CfgRecord> = Vec::new();
    let mut pos: usize = 0;
    assert(b@.skip(0) =~= b@);
    assert(records_view(out@) =~= Seq::<RecordView>::empty());
    assert(after_records(Seq::empty(), parse_section(b@)) == parse_section(b@)) by {
        match parse_section(b@) {
            Some(rs) => assert(Seq::<RecordView>::empty() + rs =~= rs),
            None => {},
        }
    }
    loop
        invariant
            pos <= b@.len(),
            parse_section(b@) == after_records(
                records_view(out@),
                parse_section(b@.skip(pos as int)),
            ),
        decreases b@.len() - pos,
    {
        let ghost s = b@.skip(pos as int);
        if pos >= b.len() {
            return None;
        }
        if b[pos] == SENTINEL {
            if pos + 1 == b.len() {
                assert(records_view(out@) + Seq::<RecordView>::empty() =~= records_view(out@));
                return Some(out);
            } else {
                return None;
            }
        }
        match read_record(b, pos) {
            Some((rec, p)) => {
                let ghost rest = parse_section(b@.skip(p as int));
                proof {
                    match rest {
                        Some(rs) => assert(records_view(out@) + (seq![rec@] + rs)
                            =~= records_view(out@).push(rec@) + rs),
                        None => {},
                    }
                }
                let ghost prev = out@;
                out.push(rec);
                assert(records_view(out@) =~= records_view(prev).push(rec@));
                pos = p;
            },
            None => {
                return None;
            },
        }
    }
}

} // verus!
