use yk_sections::crate_map::{emit_crate_map, CRATE_MAP_SECTION_NAME};

#[test]
fn crate_map_layout() {
    let sec = emit_crate_map(0x0102_0304_0506_0708, &vec![(1, 0xaa), (7, u64::MAX)]);
    assert_eq!(sec.sec_name(), CRATE_MAP_SECTION_NAME);
    assert_eq!(sec.sec_name(), ".yk_crate_map");
    let mut want = Vec::new();
    want.extend_from_slice(&3u32.to_le_bytes());
    want.extend_from_slice(&0u32.to_le_bytes());
    want.extend_from_slice(&0x0102_0304_0506_0708u64.to_le_bytes());
    want.extend_from_slice(&1u32.to_le_bytes());
    want.extend_from_slice(&0xaau64.to_le_bytes());
    want.extend_from_slice(&7u32.to_le_bytes());
    want.extend_from_slice(&u64::MAX.to_le_bytes());
    assert_eq!(sec.to_bytes(), want);
}

#[test]
fn crate_map_with_only_local_crate() {
    let sec = emit_crate_map(5, &vec![]);
    let mut want = Vec::new();
    want.extend_from_slice(&1u32.to_le_bytes());
    want.extend_from_slice(&0u32.to_le_bytes());
    want.extend_from_slice(&5u64.to_le_bytes());
    assert_eq!(sec.to_bytes(), want);
}
