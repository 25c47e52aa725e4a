use sinowealth_kb_tool::descriptor::{feature_report_ids, ReportDescriptorError};
use sinowealth_kb_tool::device_spec::device_by_name;
use sinowealth_kb_tool::machine::{
    is_expected_transport_error, IspSearchOutcome, ModeTransition, Phase, ResolveAction,
    ResolveEvent, ResolveFailure,
};
use sinowealth_kb_tool::part::part_by_name;
use sinowealth_kb_tool::resolver::{
    find_collection, find_unique_collection, matches_bootloader, matches_device,
    matches_device_usage, sorted_usb_device_list, DeviceSelectorError, HidCandidate,
};

fn candidate(vid: u16, pid: u16, iface: i32, path: &str) -> HidCandidate {
    HidCandidate {
        vendor_id: vid,
        product_id: pid,
        interface_number: iface,
        usage_page: 0xff00,
        usage: 1,
        path: path.as_bytes().to_vec(),
        bus_usb: true,
    }
}

// a descriptor declaring one feature report: Report ID, then a Feature item
fn descriptor_with_feature_id(id: u8) -> Vec<u8> {
    vec![0x85, id, 0xb1, 0x02]
}

#[test]
fn test_feature_report_ids_single() {
    let ids = feature_report_ids(&descriptor_with_feature_id(5)).unwrap();
    assert_eq!(ids, vec![5]);
}

#[test]
fn test_feature_report_ids_multiple_and_dedup() {
    // two features under ID 5, then one under ID 6
    let d = vec![0x85, 0x05, 0xb1, 0x02, 0xb1, 0x02, 0x85, 0x06, 0xb1, 0x02];
    let ids = feature_report_ids(&d).unwrap();
    assert_eq!(ids, vec![5, 6]);
}

#[test]
fn test_feature_report_ids_ignores_other_items() {
    // usage page (0x06, two data bytes), usage (0x09), input item (0x81)
    let d = vec![0x06, 0x00, 0xff, 0x09, 0x01, 0x85, 0x07, 0x81, 0x02, 0xb1, 0x02];
    let ids = feature_report_ids(&d).unwrap();
    assert_eq!(ids, vec![7]);
}

#[test]
fn test_feature_report_ids_truncated() {
    assert_eq!(
        feature_report_ids(&[0x85]),
        Err(ReportDescriptorError::TruncatedItem)
    );
}

#[test]
fn test_feature_report_ids_empty() {
    assert_eq!(feature_report_ids(&[]), Ok(Vec::new()));
}

#[test]
fn test_sorted_usb_device_list_orders_and_filters() {
    let mut bt = candidate(0x05ac, 0x024f, 0, "bt");
    bt.bus_usb = false;
    let devices = vec![
        candidate(0x258a, 0x0049, 1, "b"),
        bt,
        candidate(0x05ac, 0x024f, 1, "a"),
        candidate(0x05ac, 0x024f, 0, "a"),
    ];
    let sorted = sorted_usb_device_list(devices);
    assert_eq!(sorted.len(), 3);
    assert_eq!(sorted[0].vendor_id, 0x05ac);
    assert_eq!(sorted[0].interface_number, 0);
    assert_eq!(sorted[1].vendor_id, 0x05ac);
    assert_eq!(sorted[1].interface_number, 1);
    assert_eq!(sorted[2].vendor_id, 0x258a);
}

#[test]
fn test_matches_device_and_bootloader() {
    let spec = device_by_name("nuphy-air60").unwrap();
    let c = candidate(0x05ac, 0x024f, 1, "x");
    assert!(matches_device(&c, &spec));
    assert!(!matches_device(&candidate(0x05ac, 0x024f, 0, "x"), &spec));

    assert!(matches_bootloader(&candidate(0x0603, 0x1020, 0, "y")));
    assert!(matches_bootloader(&candidate(0x0603, 0x1021, 0, "y")));
    assert!(!matches_bootloader(&candidate(0x0603, 0x1022, 0, "y")));
    assert!(!matches_bootloader(&candidate(0x0603, 0x1020, 1, "y")));
}

#[test]
fn test_matches_device_usage() {
    // hosts that bind one handle per collection also match on the usage pair
    let part = part_by_name("weikav-sugar65").unwrap();
    let mut c = candidate(0x05ac, 0x024f, 1, "x");
    c.usage = part.isp_usage;
    c.usage_page = part.isp_usage_page;
    assert!(matches_device_usage(&c, &part));
    c.usage = part.isp_usage + 1;
    assert!(!matches_device_usage(&c, &part));
}

#[test]
fn test_find_collection_picks_first_match() {
    let candidates = vec![
        candidate(0x0603, 0x1020, 0, "a"),
        candidate(0x0603, 0x1020, 0, "b"),
    ];
    let descriptors = vec![descriptor_with_feature_id(6), descriptor_with_feature_id(5)];
    assert_eq!(find_collection(&candidates, &descriptors, 5), Ok(1));
    assert_eq!(find_collection(&candidates, &descriptors, 6), Ok(0));
    assert_eq!(
        find_collection(&candidates, &descriptors, 7),
        Err(DeviceSelectorError::DeviceNotFound)
    );
}

#[test]
fn test_find_collection_propagates_unreadable_descriptor() {
    let candidates = vec![candidate(0x0603, 0x1020, 0, "a")];
    let descriptors = vec![vec![0x85u8]];
    assert_eq!(
        find_collection(&candidates, &descriptors, 5),
        Err(DeviceSelectorError::ReportDescriptor(
            ReportDescriptorError::TruncatedItem
        ))
    );
}

#[test]
fn test_find_unique_collection_rejects_duplicates() {
    let candidates = vec![
        candidate(0x0603, 0x1020, 0, "a"),
        candidate(0x0603, 0x1020, 0, "b"),
    ];
    let descriptors = vec![descriptor_with_feature_id(5), descriptor_with_feature_id(5)];
    assert_eq!(
        find_unique_collection(&candidates, &descriptors, 5),
        Err(DeviceSelectorError::DuplicateDevices)
    );
    let distinct = vec![descriptor_with_feature_id(5), descriptor_with_feature_id(6)];
    assert_eq!(find_unique_collection(&candidates, &distinct, 5), Ok(0));
    assert_eq!(find_unique_collection(&candidates, &distinct, 6), Ok(1));
}

#[test]
fn test_is_expected_transport_error() {
    assert!(is_expected_transport_error(
        "hid_send_feature_report: Input/output error"
    ));
    assert!(is_expected_transport_error("No such device (it may have been disconnected)"));
    assert!(is_expected_transport_error("hid_error is not implemented yet"));
    assert!(!is_expected_transport_error("Access denied"));
    assert!(!is_expected_transport_error(""));
}

#[test]
fn test_resolution_success_path() {
    let mut m = ModeTransition::new(5);
    assert_eq!(m.action(), ResolveAction::FindNormal);
    m.step(&ResolveEvent::NormalSearch { found: true });
    assert_eq!(m.action(), ResolveAction::SendEnterIsp);
    m.step(&ResolveEvent::EnterIsp {
        error: Some(String::from("hid_send_feature_report: Input/output error")),
    });
    assert_eq!(m.action(), ResolveAction::SettleWait);
    m.step(&ResolveEvent::Settled);
    assert_eq!(m.action(), ResolveAction::FindIsp);
    m.step(&ResolveEvent::IspSearch {
        outcome: IspSearchOutcome::Found,
    });
    assert_eq!(m.action(), ResolveAction::Done);
    assert_eq!(m.phase, Phase::Ready);
}

#[test]
fn test_resolution_shortcut_to_isp_search() {
    let mut m = ModeTransition::new(2);
    m.step(&ResolveEvent::NormalSearch { found: false });
    assert_eq!(m.action(), ResolveAction::FindIsp);
}

#[test]
fn test_resolution_fatal_enter_isp_error_fails_attempt() {
    let mut m = ModeTransition::new(2);
    m.step(&ResolveEvent::NormalSearch { found: true });
    m.step(&ResolveEvent::EnterIsp {
        error: Some(String::from("Access denied")),
    });
    // the attempt failed, so the next attempt starts over
    assert_eq!(m.attempt, 2);
    assert_eq!(m.action(), ResolveAction::FindNormal);
}

#[test]
fn test_resolution_duplicate_is_fatal() {
    let mut m = ModeTransition::new(5);
    m.step(&ResolveEvent::NormalSearch { found: false });
    m.step(&ResolveEvent::IspSearch {
        outcome: IspSearchOutcome::Duplicate,
    });
    assert_eq!(m.phase, Phase::Failed(ResolveFailure::DuplicateDevices));
    assert_eq!(m.action(), ResolveAction::GiveUp);
}

#[test]
fn test_resolution_exhausts_exactly_retry_attempts() {
    let retry = 3;
    let mut m = ModeTransition::new(retry);
    for attempt in 1..=retry {
        assert_eq!(m.attempt, attempt);
        assert_eq!(m.action(), ResolveAction::FindNormal);
        m.step(&ResolveEvent::NormalSearch { found: false });
        m.step(&ResolveEvent::IspSearch {
            outcome: IspSearchOutcome::Missing,
        });
    }
    assert_eq!(m.phase, Phase::Failed(ResolveFailure::DeviceNotFound));
    assert_eq!(m.attempt, retry);
    // further events change nothing
    m.step(&ResolveEvent::NormalSearch { found: true });
    assert_eq!(m.phase, Phase::Failed(ResolveFailure::DeviceNotFound));
}

#[test]
fn test_resolution_zero_retries_fails_at_once() {
    let m = ModeTransition::new(0);
    assert_eq!(m.phase, Phase::Failed(ResolveFailure::DeviceNotFound));
}
