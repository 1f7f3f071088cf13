//! An append-only builder for the contents of one named data section.
use vstd::prelude::*;
use crate::bytes::{lemma_usize_width, push_le, u32_le, u64_le, usize_bytes, usize_le};
use std::path::Path;
use vstd::string::{StringExecFns, StringSliceAdditionalSpecFns};
use tempfile::TempPath;

verus! {

/// A structure for building data sections: a section name and the bytes that
/// the section will hold, in the order they were written.
pub struct DataSection {
    sec_name: String,
    bytes: Vec<u8>,
}

impl DataSection {
    /// The name the section will carry in the object file.
    pub closed spec fn name(&self) -> Seq<char> {
        self.sec_name@
    }

    /// Everything written so far.
    pub closed spec fn contents(&self) -> Seq<u8> {
        self.bytes@
    }

    /// Starts an empty section called `sec_name`.
    pub fn new(sec_name: &str) -> (r: Self)
        ensures
            r.name() == sec_name@,
            r.contents() == Seq::<u8>::empty(),
    {
        DataSection { sec_name: sec_name.to_string(), bytes: Vec::new() }
    }

    /// The name of the section.
    pub fn sec_name(&self) -> (r: &str)
        ensures
            r@ == self.name(),
    {
        self.sec_name.as_str()
    }

    pub fn write_u8(&mut self, val: u8)
        ensures
            final(self).name() == old(self).name(),
            final(self).contents() == old(self).contents().push(val),
    {
        self.bytes.push(val);
    }

    pub fn write_u32(&mut self, val: u32)
        ensures
            final(self).name() == old(self).name(),
            final(self).contents() == old(self).contents() + u32_le(val),
    {
        push_le(&mut self.bytes, val as u64, 4);
    }

    pub fn write_u64(&mut self, val: u64)
        ensures
            final(self).name() == old(self).name(),
            final(self).contents() == old(self).contents() + u64_le(val),
    {
        push_le(&mut self.bytes, val, 8);
    }

    /// Writes a pointer-sized integer in as many bytes as a `usize` has on the
    /// target.
    pub fn write_usize(&mut self, val: usize)
        ensures
            final(self).name() == old(self).name(),
            final(self).contents() == old(self).contents() + usize_le(val),
    {
        proof {
            lemma_usize_width();
        }
        push_le(&mut self.bytes, val as u64, usize_bytes());
    }

    /// Writes the UTF-8 bytes of `val` followed by a terminating zero byte.
    pub fn write_str(&mut self, val: &str)
        ensures
            final(self).name() == old(self).name(),
            final(self).contents() == old(self).contents() + val.spec_bytes() + seq![0u8],
    {
        let b = val.as_bytes();
        let ghost start = self.bytes@;
        let mut i: usize = 0;
        while i < b.len()
            invariant
                i <= b@.len(),
                b@ == val.spec_bytes(),
                self.sec_name@ == old(self).sec_name@,
                self.bytes@ =~= start + b@.subrange(0, i as int),
            decreases b@.len() - i,
        {
            self.bytes.push(b[i]);
            i = i + 1;
        }
        self.bytes.push(0u8);
        assert(b@.subrange(0, b@.len() as int) =~= b@);
    }

    /// Assembler source for the section: a `.section` directive naming it, then
    /// one `.byte` directive per byte, in order.
    pub fn asm_source(&self) -> (r: String)
        ensures
            r@ == asm_text(self.name(), self.contents()),
    {
        let mut out = String::from_str(".section ").concat(self.sec_name.as_str()).concat("\n");
        let mut i: usize = 0;
        while i < self.bytes.len()
            invariant
                i <= self.bytes@.len(),
                out@ == ".section "@ + self.sec_name@ + "\n"@ + byte_lines(
                    self.bytes@.take(i as int),
                ),
            decreases self.bytes@.len() - i,
        {
            let line = String::from_str(".byte ").concat(decimal_u8(self.bytes[i]).as_str()).concat(
                "\n",
            );
            out.append(line.as_str());
            let ghost t = self.bytes@.take(i + 1);
            assert(t.drop_last() =~= self.bytes@.take(i as int));
            assert(t.last() == self.bytes@[i as int]);
            assert(out@ =~= ".section "@ + self.sec_name@ + "\n"@ + byte_lines(t));
            i = i + 1;
        }
        assert(self.bytes@.take(self.bytes@.len() as int) =~= self.bytes@);
        out
    }

    /// The finished contents of the section.
    pub fn to_bytes(&self) -> (r: Vec<u8>)
        ensures
            r@ == self.contents(),
    {
        self.bytes.clone()
    }
}

/// The decimal digit `d`.
pub open spec fn digit_char(d: nat) -> char {
    if d == 0 {
        '0'
    } else if d == 1 {
        '1'
    } else if d == 2 {
        '2'
    } else if d == 3 {
        '3'
    } else if d == 4 {
        '4'
    } else if d == 5 {
        '5'
    } else if d == 6 {
        '6'
    } else if d == 7 {
        '7'
    } else if d == 8 {
        '8'
    } else {
        '9'
    }
}

/// `n` written in decimal, without leading zeros.
pub open spec fn decimal(n: nat) -> Seq<char>
    decreases n,
{
    if n < 10 {
        seq![digit_char(n)]
    } else {
        decimal(n / 10) + seq![digit_char(n % 10)]
    }
}

/// One assembler directive per byte of `bs`, each on its own line.
pub open spec fn byte_lines(bs: Seq<u8>) -> Seq<char>
    decreases bs.len(),
{
    if bs.len() == 0 {
        Seq::empty()
    } else {
        byte_lines(bs.drop_last()) + ".byte "@ + decimal(bs.last() as nat) + "\n"@
    }
}

/// Assembler source that places the bytes `bs` in a section named `name`.
pub open spec fn asm_text(name: Seq<char>, bs: Seq<u8>) -> Seq<char> {
    ".section "@ + name + "\n"@ + byte_lines(bs)
}

fn digit_str(d: u8) -> (r: &'static str)
    requires
        d < 10,
    ensures
        r@ == seq![digit_char(d as nat)],
{
    match d {
        0 => {
            proof {
                reveal_strlit("0");
            }
            "0"
        },
        1 => {
            proof {
                reveal_strlit("1");
            }
            "1"
        },
        2 => {
            proof {
                reveal_strlit("2");
            }
            "2"
        },
        3 => {
            proof {
                reveal_strlit("3");
            }
            "3"
        },
        4 => {
            proof {
                reveal_strlit("4");
            }
            "4"
        },
        5 => {
            proof {
                reveal_strlit("5");
            }
            "5"
        },
        6 => {
            proof {
                reveal_strlit("6");
            }
            "6"
        },
        7 => {
            proof {
                reveal_strlit("7");
            }
            "7"
        },
        8 => {
            proof {
                reveal_strlit("8");
            }
            "8"
        },
        _ => {
            proof {
                reveal_strlit("9");
            }
            "9"
        },
    }
}

/// `b` written in decimal.
fn decimal_u8(b: u8) -> (r: String)
    ensures
        r@ == decimal(b as nat),
{
    let units = digit_str(b % 10);
    if b >= 100 {
        let r = String::from_str(digit_str(b / 100)).concat(digit_str((b / 10) % 10)).concat(
            units,
        );
        assert(decimal(b as nat) =~= decimal((b / 10) as nat) + seq![digit_char((b % 10) as nat)]);
        assert(decimal((b / 10) as nat) =~= decimal((b / 100) as nat) + seq![
            digit_char(((b / 10) % 10) as nat),
        ]);
        assert(r@ =~= decimal(b as nat));
        r
    } else if b >= 10 {
        let r = String::from_str(digit_str(b / 10)).concat(units);
        assert(r@ =~= decimal(b as nat));
        r
    } else {
        String::from_str(units)
    }
}

/// The line that opens the message of a failed compilation.
pub const CCOMPILE_PREFIX: &'static str = "C compilation error:\n";

/// Why turning a section into an object file failed.
pub enum DataSectionError {
    /// A file could not be created, written or read.
    Io(std::io::Error),
    /// The tool that builds the object exited unsuccessfully; holds
    /// `CCOMPILE_PREFIX` followed by the tool's message.
    CCompile(String),
}

/// A reference to an on-disk object file which is deleted when the instance
/// falls out of scope.
pub struct DataSectionObject(TempPath);

impl DataSectionObject {
    /// Takes ownership of the object file at `path`: it is removed when the
    /// handle is dropped.
    pub fn new(path: TempPath) -> Self {
        DataSectionObject(path)
    }

    /// Where the object file is.
    pub fn path(&self) -> &Path {
        temp_path_as_path(&self.0)
    }

    /// Decides the outcome of building the object at `output`: the object when
    /// the tool succeeded, otherwise the tool's error text, unchanged, after a
    /// line that says the compilation failed. On failure `output` is dropped,
    /// which removes whatever the tool left there.
    pub fn from_tool_output(succeeded: bool, stderr: String, output: TempPath) -> (r: Result<
        Self,
        DataSectionError,
    >)
        ensures
            succeeded <==> r is Ok,
            !succeeded ==> (r matches Err(DataSectionError::CCompile(m)) && m@
                == CCOMPILE_PREFIX@ + stderr@),
    {
        if succeeded {
            Ok(DataSectionObject(output))
        } else {
            Err(DataSectionError::CCompile(String::from_str(CCOMPILE_PREFIX).concat(stderr.as_str())))
        }
    }
}

/// `std::io::Error`, carried unread in the `Io` variants of this crate's errors.
#[verifier::external_type_specification]
#[verifier::external_body]
pub struct ExIoError(std::io::Error);

/// `tempfile::TempPath`: a path whose file is removed when the value is dropped.
#[verifier::external_type_specification]
#[verifier::external_body]
pub struct ExTempPath(tempfile::TempPath);

/// `std::path::Path`, handed out by reference to name an object file.
#[verifier::external_type_specification]
#[verifier::external_body]
pub struct ExPath(std::path::Path);

/// Relies on `TempPath`'s `Deref` impl: the path of the temporary file.
#[verifier::external_body]
pub(crate) fn temp_path_as_path(p: &TempPath) -> &Path {
    p
}

} // verus!
