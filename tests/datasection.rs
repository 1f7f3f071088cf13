use yk_sections::datasection::{DataSection, DataSectionError, DataSectionObject};

#[test]
fn new_section_is_empty_and_named() {
    let s = DataSection::new(".test_sec_123");
    assert_eq!(s.sec_name(), ".test_sec_123");
    assert!(s.to_bytes().is_empty());
}

#[test]
fn integers_are_little_endian() {
    let mut s = DataSection::new(".x");
    s.write_u8(0xab);
    s.write_u32(0x0102_0304);
    s.write_u64(0x1122_3344_5566_7788);
    s.write_usize(3);
    let mut want = vec![
        0xab, 0x04, 0x03, 0x02, 0x01, 0x88, 0x77, 0x66, 0x55, 0x44, 0x33, 0x22, 0x11, 3,
    ];
    want.resize(13 + std::mem::size_of::<usize>(), 0);
    assert_eq!(s.to_bytes(), want);
}

#[test]
fn usize_takes_the_platform_width() {
    let mut s = DataSection::new(".x");
    s.write_usize(0x0102_0304);
    assert_eq!(s.to_bytes(), 0x0102_0304usize.to_le_bytes().to_vec());
}

#[test]
fn largest_values_keep_every_byte() {
    let mut s = DataSection::new(".x");
    s.write_u32(u32::MAX);
    s.write_u64(u64::MAX);
    s.write_usize(usize::MAX);
    let b = s.to_bytes();
    assert_eq!(b.len(), 12 + std::mem::size_of::<usize>());
    assert!(b.iter().all(|x| *x == 0xff));
}

#[test]
fn strings_are_zero_terminated() {
    let mut s = DataSection::new(".test_sec_123");
    s.write_str("hello_world");
    let mut want = b"hello_world".to_vec();
    want.push(0);
    assert_eq!(s.to_bytes(), want);
    let mut e = DataSection::new(".e");
    e.write_str("");
    assert_eq!(e.to_bytes(), vec![0u8]);
}

#[test]
fn failed_tool_returns_its_message_and_no_object() {
    let tmp = tempfile::NamedTempFile::new().unwrap().into_temp_path();
    let path = tmp.to_path_buf();
    let r = DataSectionObject::from_tool_output(false, String::from("cc: bad input"), tmp);
    match r {
        Err(DataSectionError::CCompile(m)) => {
            assert_eq!(m, "C compilation error:\ncc: bad input")
        }
        _ => panic!("expected a compile error"),
    }
    assert!(!path.exists());
}

#[test]
fn released_object_is_removed() {
    let tmp = tempfile::NamedTempFile::new().unwrap().into_temp_path();
    let obj = match DataSectionObject::from_tool_output(true, String::new(), tmp) {
        Ok(o) => o,
        Err(_) => panic!("expected an object"),
    };
    assert!(obj.path().exists());
    let path = obj.path().to_owned();
    drop(obj);
    assert!(!path.exists());
}

#[test]
fn object_handle_owns_its_file() {
    let tmp = tempfile::NamedTempFile::new().unwrap().into_temp_path();
    let obj = DataSectionObject::new(tmp);
    let path = obj.path().to_owned();
    assert!(path.exists());
    drop(obj);
    assert!(!path.exists());
}

#[test]
fn assembler_source_lists_every_byte() {
    let mut s = DataSection::new(".test_sec_123");
    for b in [0u8, 9, 10, 99, 100, 255] {
        s.write_u8(b);
    }
    assert_eq!(
        s.asm_source(),
        ".section .test_sec_123\n.byte 0\n.byte 9\n.byte 10\n.byte 99\n.byte 100\n.byte 255\n"
    );
    let mut h = DataSection::new(".h");
    h.write_str("hi");
    assert_eq!(h.asm_source(), ".section .h\n.byte 104\n.byte 105\n.byte 0\n");
    assert_eq!(DataSection::new(".e").asm_source(), ".section .e\n");
}
