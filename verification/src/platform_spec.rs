//! Flash geometry of the supported microcontroller platforms.

use vstd::prelude::*;

verus! {

/// Flash geometry of one microcontroller platform, in bytes.
#[derive(Debug, Clone, Copy, PartialEq, Eq, Structural)]
pub struct PlatformSpec {
    pub firmware_size: usize,
    pub bootloader_size: usize,
    pub page_size: usize,
}

impl PlatformSpec {
    /// The geometry invariant: the firmware region is made of whole pages.
    pub open spec fn wf(self) -> bool {
        &&& 0 < self.page_size
        &&& self.firmware_size % self.page_size == 0
        &&& 8 <= self.firmware_size <= 0xffff
        &&& self.firmware_size + self.bootloader_size <= 0x10000
    }

    /// Geometry shared by every supported platform except the firmware size.
    pub fn base() -> (r: PlatformSpec)
        ensures
            r == (PlatformSpec { firmware_size: 0, bootloader_size: 4096, page_size: 2048 }),
    {
        PlatformSpec { firmware_size: 0, bootloader_size: 4096, page_size: 2048 }
    }

    pub fn sh68f90() -> (r: PlatformSpec)
        ensures
            r == (PlatformSpec { firmware_size: 61440, bootloader_size: 4096, page_size: 2048 }),
            r.wf(),
    {
        PlatformSpec { firmware_size: 61440, bootloader_size: 4096, page_size: 2048 }
    }

    pub fn sh68f881() -> (r: PlatformSpec)
        ensures
            r == (PlatformSpec { firmware_size: 28672, bootloader_size: 4096, page_size: 2048 }),
            r.wf(),
    {
        PlatformSpec { firmware_size: 28672, bootloader_size: 4096, page_size: 2048 }
    }

    /// The names under which a platform can be asked for, sorted.
    pub fn available_platforms() -> (r: Vec<&'static str>)
        ensures
            r@.len() == 2,
            r@[0]@ == "sh68f881"@,
            r@[1]@ == "sh68f90"@,
    {
        let mut v: Vec<&'static str> = Vec::new();
        v.push("sh68f881");
        v.push("sh68f90");
        v
    }
}

/// The platform registered under the given name, if any.
pub open spec fn platform_entry(name: Seq<char>) -> Option<PlatformSpec> {
    if name == "sh68f90"@ {
        Some(PlatformSpec { firmware_size: 61440, bootloader_size: 4096, page_size: 2048 })
    } else if name == "sh68f881"@ {
        Some(PlatformSpec { firmware_size: 28672, bootloader_size: 4096, page_size: 2048 })
    } else {
        None
    }
}

/// Looks a platform up by name.
pub fn platform_by_name(name: &str) -> (r: Option<PlatformSpec>)
    ensures
        r == platform_entry(name@),
{
    if crate::util::str_eq(name, "sh68f90") {
        Some(PlatformSpec::sh68f90())
    } else if crate::util::str_eq(name, "sh68f881") {
        Some(PlatformSpec::sh68f881())
    } else {
        None
    }
}

/// Every platform in the catalog satisfies the geometry invariant.
pub proof fn lemma_platform_catalog_wf(name: Seq<char>)
    ensures
        platform_entry(name) matches Some(p) ==> p.wf(),
{
    assert(61440usize % 2048usize == 0);
    assert(28672usize % 2048usize == 0);
}

} // verus!
