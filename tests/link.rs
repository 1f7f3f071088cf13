use yk_sections::link::{YkExtraLinkObject, YkLinkError, BFD_ARCH, BFD_NAME};

#[test]
fn objcopy_arguments() {
    let args = YkExtraLinkObject::objcopy_args(
        BFD_NAME,
        BFD_ARCH,
        "/tmp/.ykcfg.ab12",
        "/tmp/.ykcfg.ab12.o",
        ".yk_mir_cfg",
    );
    assert_eq!(
        args,
        vec![
            "-I",
            "binary",
            "-O",
            "elf64-x86-64",
            "-B",
            "i386",
            "--rename-section",
            ".data=.yk_mir_cfg,alloc,load,readonly,data,contents",
            "-j",
            ".data",
            "/tmp/.ykcfg.ab12",
            "/tmp/.ykcfg.ab12.o",
        ]
    );
}

#[test]
fn object_path_appends_suffix() {
    assert_eq!(YkExtraLinkObject::object_path("/tmp/raw"), "/tmp/raw.o");
    assert_eq!(YkExtraLinkObject::object_path(""), ".o");
}

#[test]
fn failed_objcopy_returns_its_message() {
    let tmp = tempfile::NamedTempFile::new().unwrap().into_temp_path();
    let path = tmp.to_path_buf();
    match YkExtraLinkObject::from_tool_output(false, String::from("objcopy: no such file"), tmp) {
        Err(YkLinkError::Objcopy(m)) => assert_eq!(m, "objcopy: no such file"),
        _ => panic!("expected an objcopy error"),
    }
    assert!(!path.exists());
}

#[test]
fn released_link_object_is_removed() {
    let tmp = tempfile::NamedTempFile::new().unwrap().into_temp_path();
    let obj = match YkExtraLinkObject::from_tool_output(true, String::new(), tmp) {
        Ok(o) => o,
        Err(_) => panic!("expected an object"),
    };
    let path = obj.path().to_owned();
    assert!(path.exists());
    drop(obj);
    assert!(!path.exists());
}
