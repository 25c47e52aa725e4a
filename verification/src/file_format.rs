//! The on-disk firmware file formats and their detection from a file
//! extension.

use vstd::prelude::*;
use crate::util::str_eq;

verus! {

/// How a firmware image is stored on disk.
#[derive(Debug, Clone, Copy, PartialEq, Eq, Structural)]
pub enum Format {
    IntelHex,
    Binary,
}

impl Format {
    pub fn to_str(self) -> (r: &'static str)
        ensures
            r@ == (match self {
                Format::IntelHex => "ihex"@,
                Format::Binary => "bin"@,
            }),
    {
        match self {
            Format::IntelHex => "ihex",
            Format::Binary => "bin",
        }
    }

    pub fn available_formats() -> (r: Vec<&'static str>)
        ensures
            r@.len() == 2,
            r@[0]@ == "ihex"@,
            r@[1]@ == "bin"@,
    {
        let mut v: Vec<&'static str> = Vec::new();
        v.push("ihex");
        v.push("bin");
        v
    }

    /// Reads a format name back.
    pub fn from_str(format: &str) -> (r: Result<Format, ()>)
        ensures
            format@ == "ihex"@ ==> r == Ok::<Format, ()>(Format::IntelHex),
            format@ == "bin"@ ==> r == Ok::<Format, ()>(Format::Binary),
            format@ != "ihex"@ && format@ != "bin"@ ==> r == Err::<Format, ()>(()),
    {
        proof {
            reveal_strlit("ihex");
            reveal_strlit("bin");
            assert(("ihex")@.len() == 4);
            assert(("bin")@.len() == 3);
        }
        if str_eq(format, "ihex") {
            Ok(Format::IntelHex)
        } else if str_eq(format, "bin") {
            Ok(Format::Binary)
        } else {
            Err(())
        }
    }

    /// The format a file extension suggests: the Intel-HEX extensions map to
    /// Intel-HEX, anything else to raw binary.
    pub fn for_extension(ext: &str) -> (r: Format)
        ensures
            (ext@ == "ihex"@ || ext@ == "ihx"@ || ext@ == "hex"@) <==> r == Format::IntelHex,
    {
        if str_eq(ext, "ihex") || str_eq(ext, "ihx") || str_eq(ext, "hex") {
            Format::IntelHex
        } else {
            Format::Binary
        }
    }
}

} // verus!
