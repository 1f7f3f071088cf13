//! A section that maps the crate numbers used at compile time to the content
//! hashes that identify those crates in other sections.
use vstd::prelude::*;
use crate::bytes::{u32_le, u64_le};
use crate::datasection::DataSection;

verus! {

/// The name of the section that holds the crate map.
pub const CRATE_MAP_SECTION_NAME: &'static str = ".yk_crate_map";

/// The number of the crate being compiled.
pub const LOCAL_CRATE: u32 = 0;

/// The entries of the crate map, one after another.
pub open spec fn crate_entries_bytes(crates: Seq<(u32, u64)>) -> Seq<u8>
    decreases crates.len(),
{
    if crates.len() == 0 {
        Seq::empty()
    } else {
        crate_entries_bytes(crates.drop_last()) + u32_le(crates.last().0) + u64_le(
            crates.last().1,
        )
    }
}

/// Generates the crate map section. Its format is:
///
///     num_crates: u32
///     crate_mapping[num_crates] {
///         crate_number: u32,
///         crate_hash: u64,
///     }
///
/// The first entry is the local crate, with hash `local_hash`; then comes one
/// entry for each `(crate_number, crate_hash)` of `crates`, in order.
pub fn emit_crate_map(local_hash: u64, crates: &Vec<(u32, u64)>) -> (r: DataSection)
    requires
        crates@.len() < u32::MAX,
    ensures
        r.name() == CRATE_MAP_SECTION_NAME@,
        r.contents() == u32_le((crates@.len() + 1) as u32) + u32_le(LOCAL_CRATE) + u64_le(
            local_hash,
        ) + crate_entries_bytes(crates@),
{
    let mut sec = DataSection::new(CRATE_MAP_SECTION_NAME);

    // First field in the section is the number of crate records to process.
    sec.write_u32((crates.len() + 1) as u32);

    // Local crate record.
    sec.write_u32(LOCAL_CRATE);
    sec.write_u64(local_hash);
    let ghost head = sec.contents();

    // Now there's a record for each crate.
    let mut i: usize = 0;
    while i < crates.len()
        invariant
            i <= crates@.len(),
            sec.name() == CRATE_MAP_SECTION_NAME@,
            sec.contents() == head + crate_entries_bytes(crates@.take(i as int)),
        decreases crates@.len() - i,
    {
        let (krate, hash) = crates[i];
        sec.write_u32(krate);
        sec.write_u64(hash);
        let ghost t = crates@.take(i + 1);
        assert(t.drop_last() =~= crates@.take(i as int));
        assert(sec.contents() =~= head + crate_entries_bytes(t));
        i = i + 1;
    }
    assert(crates@.take(crates@.len() as int) =~= crates@);
    sec
}

} // verus!
