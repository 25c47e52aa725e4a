//! Catalog of supported keyboard parts and their flash geometry.

use vstd::prelude::*;
use crate::util::str_eq;

verus! {

/// Identity and geometry of one supported keyboard part.
#[derive(Debug, Clone, Copy, PartialEq, Eq, Structural)]
pub struct Part {
    pub firmware_size: usize,
    pub bootloader_size: usize,
    pub page_size: usize,
    pub vendor_id: u16,
    pub product_id: u16,
    /// USB interface number carrying the ISP report.
    pub isp_iface_num: u8,
    /// HID collection usage page carrying the ISP report.
    pub isp_usage_page: u16,
    /// HID collection usage carrying the ISP report.
    pub isp_usage: u16,
    /// Index of the matching collection in which the ISP report appears.
    pub isp_index: usize,
    pub reboot: bool,
}

/// A catalog entry: the shared base geometry with the identity fields that
/// vary between keyboards filled in.
pub open spec fn catalog_part(
    fs: usize,
    vid: u16,
    pid: u16,
    idx: usize,
    usage: u16,
) -> Part {
    Part {
        firmware_size: fs,
        bootloader_size: 4096,
        page_size: 2048,
        vendor_id: vid,
        product_id: pid,
        isp_iface_num: 1,
        isp_usage_page: 0xff00,
        isp_usage: usage,
        isp_index: idx,
        reboot: true,
    }
}

/// Builds a catalog entry.
fn make_part(fs: usize, vid: u16, pid: u16, idx: usize, usage: u16) -> (r: Part)
    ensures
        r == catalog_part(fs, vid, pid, idx, usage),
{
    Part {
        firmware_size: fs,
        bootloader_size: 4096,
        page_size: 2048,
        vendor_id: vid,
        product_id: pid,
        isp_iface_num: 1,
        isp_usage_page: 0xff00,
        isp_usage: usage,
        isp_index: idx,
        reboot: true,
    }
}

impl Part {
    /// The geometry invariant every usable part satisfies.
    pub open spec fn geometry_wf(self) -> bool {
        &&& 0 < self.page_size
        &&& self.firmware_size % self.page_size == 0
    }

    /// The generic SH68F90 part, without a vendor or product identity.
    pub fn base_sh68f90() -> (r: Part)
        ensures
            r == catalog_part(61440, 0, 0, 0, 1),
    {
        make_part(61440, 0, 0, 0, 1)
    }

    /// The generic SH68F881 part, without a vendor or product identity.
    pub fn base_sh68f881() -> (r: Part)
        ensures
            r == catalog_part(28672, 0, 0, 0, 1),
    {
        make_part(28672, 0, 0, 0, 1)
    }

    /// How many whole flash pages the firmware region spans.
    pub fn num_pages(&self) -> (r: usize)
        requires
            0 < self.page_size,
        ensures
            r == self.firmware_size / self.page_size,
    {
        self.firmware_size / self.page_size
    }

    /// The names under which a part can be asked for, sorted.
    pub fn available_parts() -> (r: Vec<&'static str>)
        ensures
            r@.map_values(|s: &'static str| s@) == part_names(),
    {
        let mut v: Vec<&'static str> = Vec::new();
        v.push("digitalalliance-meca-warrior-x");
        v.push("eyooso-z11");
        v.push("genesis-thor-300");
        v.push("genesis-thor-300-rgb");
        v.push("glorious-model-o");
        v.push("leobog-hi75");
        v.push("machenike-k500-b61");
        v.push("nuphy-air60");
        v.push("nuphy-air75");
        v.push("nuphy-air96");
        v.push("nuphy-halo65");
        v.push("re-k70-byk800");
        v.push("redragon-k530-draconic-pro");
        v.push("redragon-k614-anivia");
        v.push("redragon-k617-fizz");
        v.push("redragon-k641-shaco-pro");
        v.push("redragon-k658-pro-se");
        v.push("royalkludge-rk100");
        v.push("royalkludge-rk61");
        v.push("royalkludge-rk68-bt-dual");
        v.push("royalkludge-rk68-iso-return");
        v.push("royalkludge-rk71");
        v.push("royalkludge-rk84-iso-return");
        v.push("royalkludge-rkg68");
        v.push("terport-tr95");
        v.push("trust-gxt-960");
        v.push("weikav-sugar65");
        v.push("xinmeng-k916");
        v.push("xinmeng-m71");
        v.push("xinmeng-xm-rf68");
        v.push("yunzii-al71");
        proof {
            assert(v@.map_values(|s: &'static str| s@) =~= part_names());
        }
        v
    }
}

/// The part names of the catalog, sorted.
pub open spec fn part_names() -> Seq<Seq<char>> {
    seq![
        "digitalalliance-meca-warrior-x"@,
        "eyooso-z11"@,
        "genesis-thor-300"@,
        "genesis-thor-300-rgb"@,
        "glorious-model-o"@,
        "leobog-hi75"@,
        "machenike-k500-b61"@,
        "nuphy-air60"@,
        "nuphy-air75"@,
        "nuphy-air96"@,
        "nuphy-halo65"@,
        "re-k70-byk800"@,
        "redragon-k530-draconic-pro"@,
        "redragon-k614-anivia"@,
        "redragon-k617-fizz"@,
        "redragon-k641-shaco-pro"@,
        "redragon-k658-pro-se"@,
        "royalkludge-rk100"@,
        "royalkludge-rk61"@,
        "royalkludge-rk68-bt-dual"@,
        "royalkludge-rk68-iso-return"@,
        "royalkludge-rk71"@,
        "royalkludge-rk84-iso-return"@,
        "royalkludge-rkg68"@,
        "terport-tr95"@,
        "trust-gxt-960"@,
        "weikav-sugar65"@,
        "xinmeng-k916"@,
        "xinmeng-m71"@,
        "xinmeng-xm-rf68"@,
        "yunzii-al71"@,
    ]
}

/// The part registered under the given name, if any.
pub open spec fn part_entry(name: Seq<char>) -> Option<Part> {
    if name == "digitalalliance-meca-warrior-x"@ {
        Some(catalog_part(61440, 0x258a, 0x0090, 0, 1))
    } else if name == "eyooso-z11"@ {
        Some(catalog_part(61440, 0x258a, 0x002a, 0, 1))
    } else if name == "genesis-thor-300"@ {
        Some(catalog_part(28672, 0x258a, 0x001f, 0, 1))
    } else if name == "genesis-thor-300-rgb"@ {
        Some(catalog_part(61440, 0x258a, 0x0090, 0, 1))
    } else if name == "glorious-model-o"@ {
        Some(catalog_part(61440, 0x258a, 0x0036, 0, 1))
    } else if name == "leobog-hi75"@ {
        Some(catalog_part(61440, 0x258a, 0x010c, 1, 1))
    } else if name == "machenike-k500-b61"@ {
        Some(catalog_part(61440, 0x258a, 0x0049, 1, 1))
    } else if name == "nuphy-air60"@ || name == "nuphy-air75"@ || name == "nuphy-air96"@
        || name == "nuphy-halo65"@ {
        Some(catalog_part(61440, 0x05ac, 0x024f, 1, 1))
    } else if name == "re-k70-byk800"@ {
        Some(catalog_part(28672, 0x258a, 0x001a, 0, 1))
    } else if name == "redragon-k530-draconic-pro"@ {
        Some(catalog_part(61440, 0x258a, 0x0049, 0, 1))
    } else if name == "redragon-k614-anivia"@ || name == "redragon-k617-fizz"@
        || name == "redragon-k641-shaco-pro"@ || name == "redragon-k658-pro-se"@ {
        Some(catalog_part(61440, 0x258a, 0x0049, 1, 1))
    } else if name == "royalkludge-rk100"@ {
        Some(catalog_part(61440, 0x258a, 0x0056, 0, 1))
    } else if name == "royalkludge-rk61"@ {
        Some(catalog_part(61440, 0x258a, 0x00c7, 0, 1))
    } else if name == "royalkludge-rk68-bt-dual"@ {
        Some(catalog_part(61440, 0x258a, 0x008b, 0, 1))
    } else if name == "royalkludge-rk68-iso-return"@ {
        Some(catalog_part(61440, 0x258a, 0x00a9, 0, 1))
    } else if name == "royalkludge-rk71"@ {
        Some(catalog_part(61440, 0x258a, 0x00ea, 0, 1))
    } else if name == "royalkludge-rk84-iso-return"@ {
        Some(catalog_part(61440, 0x258a, 0x00f4, 0, 1))
    } else if name == "royalkludge-rkg68"@ {
        Some(catalog_part(61440, 0x258a, 0x0049, 0, 1))
    } else if name == "terport-tr95"@ {
        Some(catalog_part(61440, 0x258a, 0x0049, 1, 1))
    } else if name == "trust-gxt-960"@ {
        Some(catalog_part(61440, 0x145f, 0x02b6, 0, 1))
    } else if name == "weikav-sugar65"@ {
        Some(catalog_part(61440, 0x05ac, 0x024f, 0, 2))
    } else if name == "xinmeng-k916"@ {
        Some(catalog_part(61440, 0x258a, 0x00a1, 1, 1))
    } else if name == "xinmeng-m71"@ || name == "yunzii-al71"@ {
        Some(catalog_part(61440, 0x258a, 0x010c, 1, 1))
    } else if name == "xinmeng-xm-rf68"@ {
        Some(catalog_part(61440, 0x258a, 0x002a, 0, 1))
    } else {
        None
    }
}

/// Looks a part up by name.
pub fn part_by_name(name: &str) -> (r: Option<Part>)
    ensures
        r == part_entry(name@),
{
    if str_eq(name, "digitalalliance-meca-warrior-x") {
        Some(make_part(61440, 0x258a, 0x0090, 0, 1))
    } else if str_eq(name, "eyooso-z11") {
        Some(make_part(61440, 0x258a, 0x002a, 0, 1))
    } else if str_eq(name, "genesis-thor-300") {
        Some(make_part(28672, 0x258a, 0x001f, 0, 1))
    } else if str_eq(name, "genesis-thor-300-rgb") {
        Some(make_part(61440, 0x258a, 0x0090, 0, 1))
    } else if str_eq(name, "glorious-model-o") {
        Some(make_part(61440, 0x258a, 0x0036, 0, 1))
    } else if str_eq(name, "leobog-hi75") {
        Some(make_part(61440, 0x258a, 0x010c, 1, 1))
    } else if str_eq(name, "machenike-k500-b61") {
        Some(make_part(61440, 0x258a, 0x0049, 1, 1))
    } else if str_eq(name, "nuphy-air60") || str_eq(name, "nuphy-air75") || str_eq(
        name,
        "nuphy-air96",
    ) || str_eq(name, "nuphy-halo65") {
        Some(make_part(61440, 0x05ac, 0x024f, 1, 1))
    } else if str_eq(name, "re-k70-byk800") {
        Some(make_part(28672, 0x258a, 0x001a, 0, 1))
    } else if str_eq(name, "redragon-k530-draconic-pro") {
        Some(make_part(61440, 0x258a, 0x0049, 0, 1))
    } else if str_eq(name, "redragon-k614-anivia") || str_eq(name, "redragon-k617-fizz") || str_eq(
        name,
        "redragon-k641-shaco-pro",
    ) || str_eq(name, "redragon-k658-pro-se") {
        Some(make_part(61440, 0x258a, 0x0049, 1, 1))
    } else if str_eq(name, "royalkludge-rk100") {
        Some(make_part(61440, 0x258a, 0x0056, 0, 1))
    } else if str_eq(name, "royalkludge-rk61") {
        Some(make_part(61440, 0x258a, 0x00c7, 0, 1))
    } else if str_eq(name, "royalkludge-rk68-bt-dual") {
        Some(make_part(61440, 0x258a, 0x008b, 0, 1))
    } else if str_eq(name, "royalkludge-rk68-iso-return") {
        Some(make_part(61440, 0x258a, 0x00a9, 0, 1))
    } else if str_eq(name, "royalkludge-rk71") {
        Some(make_part(61440, 0x258a, 0x00ea, 0, 1))
    } else if str_eq(name, "royalkludge-rk84-iso-return") {
        Some(make_part(61440, 0x258a, 0x00f4, 0, 1))
    } else if str_eq(name, "royalkludge-rkg68") {
        Some(make_part(61440, 0x258a, 0x0049, 0, 1))
    } else if str_eq(name, "terport-tr95") {
        Some(make_part(61440, 0x258a, 0x0049, 1, 1))
    } else if str_eq(name, "trust-gxt-960") {
        Some(make_part(61440, 0x145f, 0x02b6, 0, 1))
    } else if str_eq(name, "weikav-sugar65") {
        Some(make_part(61440, 0x05ac, 0x024f, 0, 2))
    } else if str_eq(name, "xinmeng-k916") {
        Some(make_part(61440, 0x258a, 0x00a1, 1, 1))
    } else if str_eq(name, "xinmeng-m71") || str_eq(name, "yunzii-al71") {
        Some(make_part(61440, 0x258a, 0x010c, 1, 1))
    } else if str_eq(name, "xinmeng-xm-rf68") {
        Some(make_part(61440, 0x258a, 0x002a, 0, 1))
    } else {
        None
    }
}

/// Every part in the catalog has a firmware region made of whole pages.
pub proof fn lemma_part_catalog_geometry(name: Seq<char>)
    ensures
        part_entry(name) matches Some(p) ==> p.geometry_wf(),
{
    assert(61440usize % 2048usize == 0);
    assert(28672usize % 2048usize == 0);
}

} // verus!
