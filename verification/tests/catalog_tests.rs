use sinowealth_kb_tool::device_spec::{apply_overrides, device_by_name, DeviceSpec};
use sinowealth_kb_tool::part::{part_by_name, Part};
use sinowealth_kb_tool::platform_spec::{platform_by_name, PlatformSpec};

#[test]
fn test_device_num_pages() {
    assert_eq!(device_by_name("nuphy-air60").unwrap().num_pages(), 30)
}

#[test]
fn test_device_total_flash_size() {
    assert_eq!(device_by_name("nuphy-air60").unwrap().total_flash_size(), 65536)
}

#[test]
fn test_num_pages() {
    assert_eq!(part_by_name("nuphy-air60").unwrap().num_pages(), 30)
}

#[test]
fn test_device_catalog_entry() {
    let d = device_by_name("nuphy-air60").unwrap();
    assert_eq!(d.vendor_id, 0x05ac);
    assert_eq!(d.product_id, 0x024f);
    assert_eq!(d.platform.firmware_size, 61440);
    assert_eq!(d.platform.bootloader_size, 4096);
    assert_eq!(d.platform.page_size, 2048);
    assert_eq!(d.isp_iface_num, 1);
    assert_eq!(d.isp_report_id, 5);
    assert!(d.reboot);
}

#[test]
fn test_device_catalog_aliases() {
    assert_eq!(device_by_name("nuphy-air75"), device_by_name("nuphy-air60"));
    assert_eq!(device_by_name("yunzii-al71"), device_by_name("xinmeng-m71"));
    assert_eq!(device_by_name("no-such-keyboard"), None);
}

#[test]
fn test_device_catalog_geometry_divides() {
    for name in DeviceSpec::available_devices() {
        let d = device_by_name(name).unwrap();
        assert_eq!(d.platform.firmware_size % d.platform.page_size, 0);
    }
}

#[test]
fn test_part_catalog_geometry_divides() {
    for name in Part::available_parts() {
        let p = part_by_name(name).unwrap();
        assert_eq!(p.firmware_size % p.page_size, 0);
    }
}

#[test]
fn test_part_catalog_entry() {
    let p = part_by_name("weikav-sugar65").unwrap();
    assert_eq!(p.vendor_id, 0x05ac);
    assert_eq!(p.isp_usage, 0x0002);
    let q = part_by_name("genesis-thor-300").unwrap();
    assert_eq!(q.firmware_size, 28672);
    assert_eq!(part_by_name("no-such-part"), None);
}

#[test]
fn test_available_lists_are_sorted() {
    let devices = DeviceSpec::available_devices();
    assert_eq!(devices.len(), 44);
    for w in devices.windows(2) {
        assert!(w[0] < w[1]);
    }
    let parts = Part::available_parts();
    assert_eq!(parts.len(), 31);
    for w in parts.windows(2) {
        assert!(w[0] < w[1]);
    }
    let platforms = PlatformSpec::available_platforms();
    assert_eq!(platforms, vec!["sh68f881", "sh68f90"]);
}

#[test]
fn test_platform_by_name() {
    let p = platform_by_name("sh68f90").unwrap();
    assert_eq!(p.firmware_size, 61440);
    let q = platform_by_name("sh68f881").unwrap();
    assert_eq!(q.firmware_size, 28672);
    assert_eq!(platform_by_name("sh68f00"), None);
}

#[test]
fn test_apply_overrides() {
    let base = device_by_name("nuphy-air60").unwrap();
    let merged = apply_overrides(
        base,
        Some(0x05ac),
        Some(0x024f),
        Some(61440),
        None,
        None,
        Some(1),
        Some(5),
        Some(false),
    );
    assert_eq!(merged.vendor_id, 0x05ac);
    assert_eq!(merged.platform.firmware_size, 61440);
    assert_eq!(merged.platform.bootloader_size, base.platform.bootloader_size);
    assert!(!merged.reboot);

    let untouched = apply_overrides(base, None, None, None, None, None, None, None, None);
    assert_eq!(untouched, base);
}
