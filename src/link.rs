//! Extra object files to link into the resulting binary, made by grafting raw
//! section bytes into a relocatable object with `objcopy(1)`.
use vstd::prelude::*;
use vstd::string::StringExecFns;
use std::path::Path;
use tempfile::TempPath;
use crate::datasection::temp_path_as_path;

verus! {

/// The object format that the x86-64 target links.
pub const BFD_NAME: &'static str = "elf64-x86-64";

/// The architecture name that `objcopy` expects for the x86-64 target.
pub const BFD_ARCH: &'static str = "i386";

/// The tool that grafts raw bytes into an object file.
pub const OBJCOPY: &'static str = "objcopy";

/// The flags given to the renamed section: allocated, loaded, read-only data.
pub const SECTION_FLAGS: &'static str = ",alloc,load,readonly,data,contents";

/// Why an extra link object could not be made.
pub enum YkLinkError {
    /// A file could not be created or written.
    Io(std::io::Error),
    /// `objcopy` exited unsuccessfully; holds what it wrote to its error stream.
    Objcopy(String),
}

/// An extra ELF object file to link into the resulting binary. The file is
/// deleted when the handle falls out of scope.
pub struct YkExtraLinkObject(TempPath);

/// The path of the object made from the raw data at `source_path`.
pub open spec fn object_path_of(source_path: Seq<char>) -> Seq<char> {
    source_path + ".o"@
}

/// The `--rename-section` argument that names the section `section_name`.
pub open spec fn rename_arg_of(section_name: Seq<char>) -> Seq<char> {
    ".data="@ + section_name + SECTION_FLAGS@
}

/// The arguments of `objcopy` that turn the raw bytes at `source_path` into an
/// object at `out_path` holding them in one section named `section_name`.
pub open spec fn objcopy_args_of(
    bfd_name: Seq<char>,
    bfd_arch: Seq<char>,
    source_path: Seq<char>,
    out_path: Seq<char>,
    section_name: Seq<char>,
) -> Seq<Seq<char>> {
    seq![
        "-I"@,
        "binary"@,
        "-O"@,
        bfd_name,
        "-B"@,
        bfd_arch,
        "--rename-section"@,
        rename_arg_of(section_name),
        "-j"@,
        ".data"@,
        source_path,
        out_path,
    ]
}

/// The values of a sequence of strings.
pub open spec fn strings_view(v: Seq<String>) -> Seq<Seq<char>> {
    v.map_values(|s: String| s@)
}

impl YkExtraLinkObject {
    /// Where the object made from the raw data at `source_path` is written.
    pub fn object_path(source_path: &str) -> (r: String)
        ensures
            r@ == object_path_of(source_path@),
    {
        String::from_str(source_path).concat(".o")
    }

    /// The arguments that make `objcopy` graft the raw data at `source_path`
    /// into an object at `out_path`, for the object format `bfd_name` and the
    /// architecture `bfd_arch`, with the data in a section named `section_name`.
    pub fn objcopy_args(
        bfd_name: &str,
        bfd_arch: &str,
        source_path: &str,
        out_path: &str,
        section_name: &str,
    ) -> (r: Vec<String>)
        ensures
            strings_view(r@) == objcopy_args_of(
                bfd_name@,
                bfd_arch@,
                source_path@,
                out_path@,
                section_name@,
            ),
    {
        let sec_arg = String::from_str(".data=").concat(section_name).concat(SECTION_FLAGS);
        let mut args: Vec<String> = Vec::new();
        args.push(String::from_str("-I"));
        args.push(String::from_str("binary"));
        args.push(String::from_str("-O"));
        args.push(String::from_str(bfd_name));
        args.push(String::from_str("-B"));
        args.push(String::from_str(bfd_arch));
        args.push(String::from_str("--rename-section"));
        args.push(sec_arg);
        args.push(String::from_str("-j"));
        args.push(String::from_str(".data"));
        args.push(String::from_str(source_path));
        args.push(String::from_str(out_path));
        assert(strings_view(args@) =~= objcopy_args_of(
            bfd_name@,
            bfd_arch@,
            source_path@,
            out_path@,
            section_name@,
        ));
        args
    }

    /// Decides the outcome of running `objcopy` with `output` as its result:
    /// the object when it succeeded, otherwise its error text, verbatim. On
    /// failure `output` is dropped, which removes whatever was left there.
    pub fn from_tool_output(succeeded: bool, stderr: String, output: TempPath) -> (r: Result<
        Self,
        YkLinkError,
    >)
        ensures
            succeeded <==> r is Ok,
            !succeeded ==> (r matches Err(YkLinkError::Objcopy(m)) && m@ == stderr@),
    {
        if succeeded {
            Ok(YkExtraLinkObject(output))
        } else {
            Err(YkLinkError::Objcopy(stderr))
        }
    }

    /// Where the object file is.
    pub fn path(&self) -> &Path {
        temp_path_as_path(&self.0)
    }
}

} // verus!
