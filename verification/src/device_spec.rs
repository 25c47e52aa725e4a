//! Catalog of supported keyboards and the identity used to resolve them.

use vstd::prelude::*;
use crate::platform_spec::PlatformSpec;
use crate::util::str_eq;

verus! {

/// Identity of one supported keyboard: how to find it in normal mode and
/// which flash geometry it carries.
#[derive(Debug, Clone, Copy, PartialEq, Eq, Structural)]
pub struct DeviceSpec {
    pub vendor_id: u16,
    pub product_id: u16,
    pub platform: PlatformSpec,
    /// USB interface number carrying the ISP report.
    pub isp_iface_num: i32,
    /// HID report ID of the ISP command channel.
    pub isp_report_id: u32,
    pub reboot: bool,
}

/// A catalog entry: the defaults with the identity fields filled in.
pub open spec fn catalog_device(fs: usize, vid: u16, pid: u16) -> DeviceSpec {
    DeviceSpec {
        vendor_id: vid,
        product_id: pid,
        platform: PlatformSpec { firmware_size: fs, bootloader_size: 4096, page_size: 2048 },
        isp_iface_num: 1,
        isp_report_id: 5,
        reboot: true,
    }
}

/// Builds a catalog entry.
fn make_device(fs: usize, vid: u16, pid: u16) -> (r: DeviceSpec)
    ensures
        r == catalog_device(fs, vid, pid),
{
    DeviceSpec {
        vendor_id: vid,
        product_id: pid,
        platform: PlatformSpec { firmware_size: fs, bootloader_size: 4096, page_size: 2048 },
        isp_iface_num: 1,
        isp_report_id: 5,
        reboot: true,
    }
}

impl DeviceSpec {
    /// The generic SH68F90 entry, without a vendor or product identity.
    pub fn base_sh68f90() -> (r: DeviceSpec)
        ensures
            r == catalog_device(61440, 0, 0),
    {
        make_device(61440, 0, 0)
    }

    /// The generic SH68F881 entry, without a vendor or product identity.
    pub fn base_sh68f881() -> (r: DeviceSpec)
        ensures
            r == catalog_device(28672, 0, 0),
    {
        make_device(28672, 0, 0)
    }

    /// How many whole flash pages the firmware region spans.
    pub fn num_pages(&self) -> (r: usize)
        requires
            0 < self.platform.page_size,
        ensures
            r == self.platform.firmware_size / self.platform.page_size,
    {
        self.platform.firmware_size / self.platform.page_size
    }

    /// The size of the whole flash: firmware region plus bootloader region.
    pub fn total_flash_size(&self) -> (r: usize)
        requires
            self.platform.firmware_size + self.platform.bootloader_size <= usize::MAX,
        ensures
            r == self.platform.firmware_size + self.platform.bootloader_size,
    {
        self.platform.firmware_size + self.platform.bootloader_size
    }

    /// The names under which a keyboard can be asked for, sorted.
    pub fn available_devices() -> (r: Vec<&'static str>)
        ensures
            r@.map_values(|s: &'static str| s@) == device_names(),
    {
        let mut v: Vec<&'static str> = Vec::new();
        v.push("aula-f75");
        v.push("aula-f87");
        v.push("deltaco-wk95r");
        v.push("digitalalliance-meca-warrior-x");
        v.push("eyooso-z11");
        v.push("eyooso-z82");
        v.push("genesis-thor-300");
        v.push("genesis-thor-300-rgb");
        v.push("glorious-model-o");
        v.push("kzzi-k68pro");
        v.push("leobog-hi75");
        v.push("machenike-k500-b61");
        v.push("magegee-mkstar61");
        v.push("nuphy-air60");
        v.push("nuphy-air75");
        v.push("nuphy-air96");
        v.push("nuphy-halo65");
        v.push("portronics-hydra10");
        v.push("re-k70-byk800");
        v.push("redragon-k530-draconic-pro");
        v.push("redragon-k614-anivia");
        v.push("redragon-k617-fizz");
        v.push("redragon-k618");
        v.push("redragon-k630-norgb");
        v.push("redragon-k633-ryze");
        v.push("redragon-k641-shaco-pro");
        v.push("redragon-k658-pro-se");
        v.push("royalkludge-rk100");
        v.push("royalkludge-rk61");
        v.push("royalkludge-rk68-bt-dual");
        v.push("royalkludge-rk68-iso-return");
        v.push("royalkludge-rk71");
        v.push("royalkludge-rk84-iso-return");
        v.push("royalkludge-rkg68");
        v.push("terport-tr95");
        v.push("trust-gxt-960");
        v.push("weikav-sugar65");
        v.push("xinmeng-k916");
        v.push("xinmeng-m66");
        v.push("xinmeng-m71");
        v.push("xinmeng-xm-rf68");
        v.push("yinren-r108");
        v.push("yunzii-al66");
        v.push("yunzii-al71");
        proof {
            assert(v@.map_values(|s: &'static str| s@) =~= device_names());
        }
        v
    }
}

/// The keyboard names of the catalog, sorted.
pub open spec fn device_names() -> Seq<Seq<char>> {
    seq![
        "aula-f75"@,
        "aula-f87"@,
        "deltaco-wk95r"@,
        "digitalalliance-meca-warrior-x"@,
        "eyooso-z11"@,
        "eyooso-z82"@,
        "genesis-thor-300"@,
        "genesis-thor-300-rgb"@,
        "glorious-model-o"@,
        "kzzi-k68pro"@,
        "leobog-hi75"@,
        "machenike-k500-b61"@,
        "magegee-mkstar61"@,
        "nuphy-air60"@,
        "nuphy-air75"@,
        "nuphy-air96"@,
        "nuphy-halo65"@,
        "portronics-hydra10"@,
        "re-k70-byk800"@,
        "redragon-k530-draconic-pro"@,
        "redragon-k614-anivia"@,
        "redragon-k617-fizz"@,
        "redragon-k618"@,
        "redragon-k630-norgb"@,
        "redragon-k633-ryze"@,
        "redragon-k641-shaco-pro"@,
        "redragon-k658-pro-se"@,
        "royalkludge-rk100"@,
        "royalkludge-rk61"@,
        "royalkludge-rk68-bt-dual"@,
        "royalkludge-rk68-iso-return"@,
        "royalkludge-rk71"@,
        "royalkludge-rk84-iso-return"@,
        "royalkludge-rkg68"@,
        "terport-tr95"@,
        "trust-gxt-960"@,
        "weikav-sugar65"@,
        "xinmeng-k916"@,
        "xinmeng-m66"@,
        "xinmeng-m71"@,
        "xinmeng-xm-rf68"@,
        "yinren-r108"@,
        "yunzii-al66"@,
        "yunzii-al71"@,
    ]
}

/// The keyboard registered under the given name, if any.
pub open spec fn device_entry(name: Seq<char>) -> Option<DeviceSpec> {
    if name == "aula-f75"@ || name == "aula-f87"@ || name == "eyooso-z82"@
        || name == "leobog-hi75"@ || name == "magegee-mkstar61"@ || name == "xinmeng-m66"@
        || name == "xinmeng-m71"@ || name == "yunzii-al66"@ || name == "yunzii-al71"@ {
        Some(catalog_device(61440, 0x258a, 0x010c))
    } else if name == "deltaco-wk95r"@ || name == "machenike-k500-b61"@
        || name == "portronics-hydra10"@ || name == "redragon-k530-draconic-pro"@
        || name == "redragon-k614-anivia"@ || name == "redragon-k617-fizz"@
        || name == "redragon-k618"@ || name == "redragon-k633-ryze"@
        || name == "redragon-k641-shaco-pro"@ || name == "redragon-k658-pro-se"@
        || name == "royalkludge-rkg68"@ || name == "terport-tr95"@ || name == "yinren-r108"@ {
        Some(catalog_device(61440, 0x258a, 0x0049))
    } else if name == "digitalalliance-meca-warrior-x"@ || name == "genesis-thor-300-rgb"@ {
        Some(catalog_device(61440, 0x258a, 0x0090))
    } else if name == "eyooso-z11"@ || name == "xinmeng-xm-rf68"@
        || name == "redragon-k630-norgb"@ {
        Some(catalog_device(61440, 0x258a, 0x002a))
    } else if name == "genesis-thor-300"@ {
        Some(catalog_device(28672, 0x258a, 0x001f))
    } else if name == "glorious-model-o"@ {
        Some(catalog_device(61440, 0x258a, 0x0036))
    } else if name == "kzzi-k68pro"@ {
        Some(catalog_device(61440, 0x258a, 0x0186))
    } else if name == "nuphy-air60"@ || name == "nuphy-air75"@ || name == "nuphy-air96"@
        || name == "nuphy-halo65"@ || name == "weikav-sugar65"@ {
        Some(catalog_device(61440, 0x05ac, 0x024f))
    } else if name == "re-k70-byk800"@ {
        Some(catalog_device(28672, 0x258a, 0x001a))
    } else if name == "royalkludge-rk100"@ {
        Some(catalog_device(61440, 0x258a, 0x0056))
    } else if name == "royalkludge-rk61"@ {
        Some(catalog_device(61440, 0x258a, 0x00c7))
    } else if name == "royalkludge-rk68-bt-dual"@ {
        Some(catalog_device(61440, 0x258a, 0x008b))
    } else if name == "royalkludge-rk68-iso-return"@ {
        Some(catalog_device(61440, 0x258a, 0x00a9))
    } else if name == "royalkludge-rk71"@ {
        Some(catalog_device(61440, 0x258a, 0x00ea))
    } else if name == "royalkludge-rk84-iso-return"@ {
        Some(catalog_device(61440, 0x258a, 0x00f4))
    } else if name == "trust-gxt-960"@ {
        Some(catalog_device(61440, 0x145f, 0x02b6))
    } else if name == "xinmeng-k916"@ {
        Some(catalog_device(61440, 0x258a, 0x00a1))
    } else {
        None
    }
}

/// Looks a keyboard up by name.
pub fn device_by_name(name: &str) -> (r: Option<DeviceSpec>)
    ensures
        r == device_entry(name@),
{
    if str_eq(name, "aula-f75") || str_eq(name, "aula-f87") || str_eq(name, "eyooso-z82")
        || str_eq(name, "leobog-hi75") || str_eq(name, "magegee-mkstar61") || str_eq(
        name,
        "xinmeng-m66",
    ) || str_eq(name, "xinmeng-m71") || str_eq(name, "yunzii-al66") || str_eq(
        name,
        "yunzii-al71",
    ) {
        Some(make_device(61440, 0x258a, 0x010c))
    } else if str_eq(name, "deltaco-wk95r") || str_eq(name, "machenike-k500-b61") || str_eq(
        name,
        "portronics-hydra10",
    ) || str_eq(name, "redragon-k530-draconic-pro") || str_eq(name, "redragon-k614-anivia")
        || str_eq(name, "redragon-k617-fizz") || str_eq(name, "redragon-k618") || str_eq(
        name,
        "redragon-k633-ryze",
    ) || str_eq(name, "redragon-k641-shaco-pro") || str_eq(name, "redragon-k658-pro-se")
        || str_eq(name, "royalkludge-rkg68") || str_eq(name, "terport-tr95") || str_eq(
        name,
        "yinren-r108",
    ) {
        Some(make_device(61440, 0x258a, 0x0049))
    } else if str_eq(name, "digitalalliance-meca-warrior-x") || str_eq(
        name,
        "genesis-thor-300-rgb",
    ) {
        Some(make_device(61440, 0x258a, 0x0090))
    } else if str_eq(name, "eyooso-z11") || str_eq(name, "xinmeng-xm-rf68") || str_eq(
        name,
        "redragon-k630-norgb",
    ) {
        Some(make_device(61440, 0x258a, 0x002a))
    } else if str_eq(name, "genesis-thor-300") {
        Some(make_device(28672, 0x258a, 0x001f))
    } else if str_eq(name, "glorious-model-o") {
        Some(make_device(61440, 0x258a, 0x0036))
    } else if str_eq(name, "kzzi-k68pro") {
        Some(make_device(61440, 0x258a, 0x0186))
    } else if str_eq(name, "nuphy-air60") || str_eq(name, "nuphy-air75") || str_eq(
        name,
        "nuphy-air96",
    ) || str_eq(name, "nuphy-halo65") || str_eq(name, "weikav-sugar65") {
        Some(make_device(61440, 0x05ac, 0x024f))
    } else if str_eq(name, "re-k70-byk800") {
        Some(make_device(28672, 0x258a, 0x001a))
    } else if str_eq(name, "royalkludge-rk100") {
        Some(make_device(61440, 0x258a, 0x0056))
    } else if str_eq(name, "royalkludge-rk61") {
        Some(make_device(61440, 0x258a, 0x00c7))
    } else if str_eq(name, "royalkludge-rk68-bt-dual") {
        Some(make_device(61440, 0x258a, 0x008b))
    } else if str_eq(name, "royalkludge-rk68-iso-return") {
        Some(make_device(61440, 0x258a, 0x00a9))
    } else if str_eq(name, "royalkludge-rk71") {
        Some(make_device(61440, 0x258a, 0x00ea))
    } else if str_eq(name, "royalkludge-rk84-iso-return") {
        Some(make_device(61440, 0x258a, 0x00f4))
    } else if str_eq(name, "trust-gxt-960") {
        Some(make_device(61440, 0x145f, 0x02b6))
    } else if str_eq(name, "xinmeng-k916") {
        Some(make_device(61440, 0x258a, 0x00a1))
    } else {
        None
    }
}

/// Applies command-line overrides over a base catalog entry, field by field.
pub fn apply_overrides(
    base: DeviceSpec,
    vendor_id: Option<u16>,
    product_id: Option<u16>,
    firmware_size: Option<usize>,
    bootloader_size: Option<usize>,
    page_size: Option<usize>,
    isp_iface_num: Option<i32>,
    isp_report_id: Option<u32>,
    reboot: Option<bool>,
) -> (r: DeviceSpec)
    ensures
        r.vendor_id == if vendor_id is Some { vendor_id.unwrap() } else { base.vendor_id },
        r.product_id == if product_id is Some { product_id.unwrap() } else { base.product_id },
        r.platform.firmware_size == if firmware_size is Some {
            firmware_size.unwrap()
        } else {
            base.platform.firmware_size
        },
        r.platform.bootloader_size == if bootloader_size is Some {
            bootloader_size.unwrap()
        } else {
            base.platform.bootloader_size
        },
        r.platform.page_size == if page_size is Some {
            page_size.unwrap()
        } else {
            base.platform.page_size
        },
        r.isp_iface_num == if isp_iface_num is Some {
            isp_iface_num.unwrap()
        } else {
            base.isp_iface_num
        },
        r.isp_report_id == if isp_report_id is Some {
            isp_report_id.unwrap()
        } else {
            base.isp_report_id
        },
        r.reboot == if reboot is Some { reboot.unwrap() } else { base.reboot },
{
    let mut spec = base;
    if let Some(v) = vendor_id {
        spec.vendor_id = v;
    }
    if let Some(v) = product_id {
        spec.product_id = v;
    }
    if let Some(v) = firmware_size {
        spec.platform.firmware_size = v;
    }
    if let Some(v) = bootloader_size {
        spec.platform.bootloader_size = v;
    }
    if let Some(v) = page_size {
        spec.platform.page_size = v;
    }
    if let Some(v) = isp_iface_num {
        spec.isp_iface_num = v;
    }
    if let Some(v) = isp_report_id {
        spec.isp_report_id = v;
    }
    if let Some(v) = reboot {
        spec.reboot = v;
    }
    spec
}

/// Every keyboard in the catalog has a firmware region made of whole pages.
pub proof fn lemma_device_catalog_geometry(name: Seq<char>)
    ensures
        device_entry(name) matches Some(d) ==> d.platform.wf(),
{
    assert(61440usize % 2048usize == 0);
    assert(28672usize % 2048usize == 0);
}

} // verus!
