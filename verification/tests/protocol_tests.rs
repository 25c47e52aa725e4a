use sinowealth_kb_tool::device_spec::device_by_name;
use sinowealth_kb_tool::file_format::Format;
use sinowealth_kb_tool::isp_device::{
    apply_write_relocation, assemble_read_pages, build_write_reports, clear_relocation_stash,
    enable_firmware_report, enter_isp_report, erase_report, init_read_report, init_write_report,
    parse_read_page, read_cycle_plan, read_page_request, read_range, reboot_report,
    reconstruct_read_image, write_cycle_plan, write_finish_plan, write_page_report, ISPError,
    ReadSection, WireStep,
};

#[test]
fn test_command_reports() {
    assert_eq!(enter_isp_report(), vec![0x05, 0x75, 0, 0, 0, 0]);
    assert_eq!(enable_firmware_report(), vec![0x05, 0x55, 0, 0, 0, 0]);
    assert_eq!(erase_report(), vec![0x05, 0x45, 0, 0, 0, 0]);
    assert_eq!(reboot_report(), vec![0x05, 0x5a, 0, 0, 0, 0]);
}

#[test]
fn test_init_reports_are_little_endian() {
    assert_eq!(init_read_report(0xf000), vec![0x05, 0x52, 0x00, 0xf0, 0, 0]);
    assert_eq!(init_write_report(0x1234), vec![0x05, 0x57, 0x34, 0x12, 0, 0]);
    assert_eq!(init_read_report(0), vec![0x05, 0x52, 0, 0, 0, 0]);
}

#[test]
fn test_write_page_report() {
    assert_eq!(
        write_page_report(&[0xaa, 0xbb, 0xcc]),
        vec![0x06, 0x77, 0xaa, 0xbb, 0xcc]
    );
}

#[test]
fn test_read_page_request() {
    let req = read_page_request(2048);
    assert_eq!(req.len(), 2050);
    assert_eq!(req[0], 0x06);
    assert!(req[1..].iter().all(|b| *b == 0));
}

#[test]
fn test_parse_read_page() {
    let mut buf = vec![0x06, 0x72, 1, 2, 3];
    assert_eq!(parse_read_page(&buf).unwrap(), vec![1, 2, 3]);
    buf[1] = 0x77;
    assert!(matches!(
        parse_read_page(&buf),
        Err(ISPError::ReadWriteMismatch)
    ));
}

#[test]
fn test_assemble_read_pages() {
    let pages = vec![vec![0x06, 0x72, 1, 2], vec![0x06, 0x72, 3, 4]];
    assert_eq!(assemble_read_pages(&pages).unwrap(), vec![1, 2, 3, 4]);

    let bad = vec![vec![0x06, 0x72, 1, 2], vec![0x06, 0x55, 3, 4]];
    assert!(matches!(
        assemble_read_pages(&bad),
        Err(ISPError::ReadWriteMismatch)
    ));
}

#[test]
fn test_build_write_reports() {
    let firmware = vec![1, 2, 3, 4, 5, 6];
    let reports = build_write_reports(&firmware, 2);
    assert_eq!(reports.len(), 3);
    assert_eq!(reports[0], vec![0x06, 0x77, 1, 2]);
    assert_eq!(reports[1], vec![0x06, 0x77, 3, 4]);
    assert_eq!(reports[2], vec![0x06, 0x77, 5, 6]);
}

#[test]
fn test_write_relocation_and_stash_clear() {
    let fs = 16;
    let mut firmware = vec![0u8; 16];
    firmware[0] = 0x02;
    firmware[1] = 0x12;
    firmware[2] = 0x34;
    apply_write_relocation(&mut firmware, fs);
    assert_eq!(firmware[fs - 4], 0x12);
    assert_eq!(firmware[fs - 3], 0x34);
    assert_eq!(firmware[1], 0x12);
    clear_relocation_stash(&mut firmware, fs);
    assert_eq!(firmware[fs - 4], 0);
    assert_eq!(firmware[fs - 3], 0);
}

#[test]
fn test_reconstruct_read_image() {
    let fs = 16;
    let mut image = vec![0u8; 16];
    image[fs - 5] = 0x02;
    image[fs - 4] = 0x43;
    image[fs - 3] = 0x21;
    reconstruct_read_image(&mut image, fs);
    assert_eq!(image[1], 0x43);
    assert_eq!(image[2], 0x21);
    assert_eq!(&image[fs - 5..fs - 2], &[0, 0, 0]);

    // without a trailing long jump the image stays as read
    let mut plain = vec![0xaau8; 16];
    plain[fs - 5] = 0x00;
    let before = plain.clone();
    reconstruct_read_image(&mut plain, fs);
    assert_eq!(plain, before);
}

#[test]
fn test_read_range_per_section() {
    let spec = device_by_name("nuphy-air60").unwrap();
    assert_eq!(read_range(&spec, ReadSection::Firmware), (0, 61440));
    assert_eq!(read_range(&spec, ReadSection::Bootloader), (61440, 4096));
    assert_eq!(read_range(&spec, ReadSection::Full), (0, 65536));
}

#[test]
fn test_read_section_names() {
    assert_eq!(ReadSection::Firmware.to_str(), "firmware");
    assert_eq!(ReadSection::Bootloader.to_str(), "bootloader");
    assert_eq!(ReadSection::Full.to_str(), "full");
    assert_eq!(
        ReadSection::available_sections(),
        vec!["firmware", "bootloader", "full"]
    );
    assert_eq!(ReadSection::from_str("bootloader"), Ok(ReadSection::Bootloader));
    assert_eq!(ReadSection::from_str("full"), Ok(ReadSection::Full));
    assert_eq!(ReadSection::from_str("firmware"), Ok(ReadSection::Firmware));
    assert_eq!(ReadSection::from_str("nothing"), Err(()));
}

#[test]
fn test_read_cycle_plan_shape() {
    let spec = device_by_name("nuphy-air60").unwrap();
    let plan = read_cycle_plan(&spec, ReadSection::Firmware);
    // enable, set address, 30 page fetches, reboot, settle
    assert_eq!(plan.len(), 2 + 30 + 2);
    assert!(matches!(&plan[0], WireStep::SendCommand(r) if r == &vec![0x05, 0x55, 0, 0, 0, 0]));
    assert!(matches!(&plan[1], WireStep::SendCommand(r) if r == &vec![0x05, 0x52, 0, 0, 0, 0]));
    assert!(matches!(plan[2], WireStep::ReadData(2050)));
    assert!(matches!(plan[31], WireStep::ReadData(2050)));
    // the reboot send is best-effort: the device may restart mid-transaction
    assert!(matches!(
        &plan[32],
        WireStep::SendCommandBestEffort(r) if r == &vec![0x05, 0x5a, 0, 0, 0, 0]
    ));
    assert!(matches!(plan[33], WireStep::Settle(2000)));

    let bootloader = read_cycle_plan(&spec, ReadSection::Bootloader);
    // the bootloader region starts at the firmware size: 0xf000 little-endian
    assert!(
        matches!(&bootloader[1], WireStep::SendCommand(r) if r == &vec![0x05, 0x52, 0x00, 0xf0, 0, 0])
    );
    assert_eq!(bootloader.len(), 2 + 2 + 2);
}

#[test]
fn test_write_cycle_plan_shape() {
    let mut spec = device_by_name("nuphy-air60").unwrap();
    spec.reboot = false;
    let firmware = vec![0xabu8; 61440];
    let plan = write_cycle_plan(&firmware, &spec);
    // erase, settle, init write, 30 page writes, init read, 30 page fetches
    assert_eq!(plan.len(), 3 + 30 + 1 + 30);
    assert!(matches!(&plan[0], WireStep::SendCommand(r) if r == &vec![0x05, 0x45, 0, 0, 0, 0]));
    assert!(matches!(plan[1], WireStep::Settle(2000)));
    assert!(matches!(&plan[2], WireStep::SendCommand(r) if r == &vec![0x05, 0x57, 0, 0, 0, 0]));
    match &plan[3] {
        WireStep::SendData(r) => {
            assert_eq!(r.len(), 2050);
            assert_eq!(&r[..2], &[0x06, 0x77]);
            assert!(r[2..].iter().all(|b| *b == 0xab));
        }
        other => panic!("unexpected step: {:?}", other),
    }
    assert!(matches!(&plan[33], WireStep::SendCommand(r) if r == &vec![0x05, 0x52, 0, 0, 0, 0]));
    assert!(matches!(plan[34], WireStep::ReadData(2050)));

    let finish = write_finish_plan(&spec);
    assert_eq!(finish.len(), 1);
    assert!(matches!(&finish[0], WireStep::SendCommand(r) if r == &vec![0x05, 0x55, 0, 0, 0, 0]));
    spec.reboot = true;
    let finish_reboot = write_finish_plan(&spec);
    assert_eq!(finish_reboot.len(), 3);
    assert!(matches!(
        &finish_reboot[1],
        WireStep::SendCommandBestEffort(r) if r == &vec![0x05, 0x5a, 0, 0, 0, 0]
    ));
    assert!(matches!(finish_reboot[2], WireStep::Settle(2000)));
}

#[test]
fn test_format_names_and_detection() {
    assert_eq!(Format::IntelHex.to_str(), "ihex");
    assert_eq!(Format::Binary.to_str(), "bin");
    assert_eq!(Format::available_formats(), vec!["ihex", "bin"]);
    assert_eq!(Format::from_str("ihex"), Ok(Format::IntelHex));
    assert_eq!(Format::from_str("bin"), Ok(Format::Binary));
    assert_eq!(Format::from_str("elf"), Err(()));
    assert_eq!(Format::for_extension("hex"), Format::IntelHex);
    assert_eq!(Format::for_extension("ihx"), Format::IntelHex);
    assert_eq!(Format::for_extension("ihex"), Format::IntelHex);
    assert_eq!(Format::for_extension("bin"), Format::Binary);
    assert_eq!(Format::for_extension("txt"), Format::Binary);
}
