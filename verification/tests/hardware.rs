use irauth::hardware::{
    classify, device_from_sysfs, interface_from, is_strict_device_path, parse_verified_ids,
    probe, sort_devices, strict_device_for_path, strict_devices, token_ir, usb_id_from,
    valid_usb_id, valid_usb_selector, Evidence, SysfsEntry, VideoDevice, VERIFIED_IDS_PATH,
};

fn entry(file_name: &str, name: Option<&str>) -> SysfsEntry {
    SysfsEntry {
        file_name: file_name.to_string(),
        name: name.map(str::to_string),
        usb_id: None,
        usb_interface: None,
    }
}

#[test]
fn ir_name_is_strict() {
    let devices = probe(&vec![entry("video0", Some("Integrated IR Camera\n"))], Some(""));
    assert_eq!(devices[0].evidence, Evidence::IrName);
}

#[test]
fn rgb_name_is_not_accepted() {
    let devices = probe(&vec![entry("video0", Some("HD Webcam\n"))], Some(""));
    assert_eq!(devices[0].evidence, Evidence::NotAccepted);
}

#[test]
fn probe_skips_other_entries_sorts_and_falls_back_to_file_name() {
    let entries = vec![
        entry("video2", Some("  \n")),
        entry("media0", Some("Infrared")),
        entry("video10", Some("Depth Sensor")),
        entry("video1", None),
    ];
    let devices = probe(&entries, None);
    let nodes: Vec<&str> = devices.iter().map(|d| d.node.as_str()).collect();
    assert_eq!(nodes, vec!["/dev/video1", "/dev/video10", "/dev/video2"]);
    assert_eq!(devices[0].name, "video1");
    assert_eq!(devices[1].name, "Depth Sensor");
    assert_eq!(devices[1].evidence, Evidence::DepthName);
    assert_eq!(devices[2].name, "video2");
    assert_eq!(devices[2].evidence, Evidence::NotAccepted);
}

#[test]
fn probe_uses_verified_selectors() {
    let mut e = entry("video0", Some("USB Camera"));
    e.usb_id = Some("1234:abcd".into());
    e.usb_interface = Some("02".into());
    let listed = probe(&vec![e], Some("# verified\n1234:ABCD@02  # IR interface\n"));
    assert_eq!(listed[0].evidence, Evidence::VerifiedUsbId);
    let mut e = entry("video0", Some("USB Camera"));
    e.usb_id = Some("1234:abcd".into());
    e.usb_interface = Some("00".into());
    let other = probe(&vec![e], Some("1234:abcd@02\n"));
    assert_eq!(other[0].evidence, Evidence::NotAccepted);
    let mut e = entry("video0", Some("USB Camera"));
    e.usb_id = Some("1234:abcd".into());
    e.usb_interface = Some("02".into());
    let unreadable = probe(&vec![e], None);
    assert_eq!(unreadable[0].evidence, Evidence::NotAccepted);
}

#[test]
fn bare_vid_pid_is_not_a_selector() {
    assert!(valid_usb_id("1234:abcd"));
    assert!(!valid_usb_id("1234:abc"));
    assert!(!valid_usb_id("12345abcd"));
    assert!(!valid_usb_id("1234:abcg"));
    assert!(valid_usb_selector("1234:abcd@02"));
    assert!(!valid_usb_selector("1234:abcd"));
    assert!(!valid_usb_selector("1234:abcd@2"));
    assert!(parse_verified_ids("1234:abcd\n").is_empty());
}

#[test]
fn verified_list_is_normalized_and_deduplicated() {
    let ids = parse_verified_ids("1234:ABCD@0A\n\n  1234:abcd@0a # again\nnot an id\n5678:0001@01");
    assert_eq!(ids, vec!["1234:abcd@0a".to_string(), "5678:0001@01".to_string()]);
    assert_eq!(VERIFIED_IDS_PATH, "/etc/irauth/hardware.ids");
}

#[test]
fn usb_attributes() {
    assert_eq!(usb_id_from("1234\n", " ABCD\n").as_deref(), Some("1234:abcd"));
    assert_eq!(usb_id_from("", "abcd"), None);
    assert_eq!(usb_id_from("12", "abcd"), None);
    assert_eq!(interface_from("0A\n").as_deref(), Some("0a"));
    assert_eq!(interface_from("2"), None);
}

#[test]
fn ir_must_be_a_whole_word() {
    assert!(token_ir(&"integrated ir camera".chars().collect()));
    assert!(token_ir(&"ir".chars().collect()));
    assert!(token_ir(&"cam-ir_2".chars().collect()));
    assert!(!token_ir(&"mirror camera".chars().collect()));
    assert!(!token_ir(&"irx".chars().collect()));
}

#[test]
fn classification_order() {
    let none: Vec<String> = Vec::new();
    assert_eq!(classify("Infrared Camera", &None, &None, &none), Evidence::IrName);
    assert_eq!(classify("IR Depth", &None, &None, &none), Evidence::IrName);
    assert_eq!(classify("RealSense 3D Camera", &None, &None, &none), Evidence::DepthName);
    assert_eq!(classify("Webcam", &None, &None, &none), Evidence::NotAccepted);
    let listed = vec!["1234:abcd@02".to_string()];
    assert_eq!(
        classify("Webcam", &Some("1234:abcd".into()), &Some("02".into()), &listed),
        Evidence::VerifiedUsbId
    );
    assert_eq!(
        classify("Webcam", &Some("1234:abcd".into()), &None, &listed),
        Evidence::NotAccepted
    );
}

#[test]
fn evidence_strictness() {
    assert!(Evidence::IrName.is_strict());
    assert!(Evidence::DepthName.is_strict());
    assert!(Evidence::VerifiedUsbId.is_strict());
    assert!(!Evidence::NotAccepted.is_strict());
}

#[test]
fn non_video_entries_are_not_devices() {
    assert!(device_from_sysfs("v4l-subdev0", Some("IR"), None, None, &vec![]).is_none());
    let d = device_from_sysfs("video3", Some(" IR cam \n"), None, None, &vec![]).unwrap();
    assert_eq!(d.node, "/dev/video3");
    assert_eq!(d.name, "IR cam");
}

fn device(node: &str, evidence: Evidence) -> VideoDevice {
    VideoDevice {
        node: node.into(),
        name: "cam".into(),
        usb_id: None,
        usb_interface: None,
        evidence,
    }
}

#[test]
fn strict_filter_and_sort() {
    let all = vec![
        device("/dev/video2", Evidence::IrName),
        device("/dev/video0", Evidence::NotAccepted),
        device("/dev/video1", Evidence::DepthName),
    ];
    let strict = strict_devices(&all);
    assert_eq!(strict.len(), 2);
    assert_eq!(strict[0].node, "/dev/video2");
    assert_eq!(strict[1].node, "/dev/video1");
    let sorted = sort_devices(&all);
    let nodes: Vec<&str> = sorted.iter().map(|d| d.node.as_str()).collect();
    assert_eq!(nodes, vec!["/dev/video0", "/dev/video1", "/dev/video2"]);
}

#[test]
fn configured_path_must_resolve_to_a_strict_device() {
    let all = vec![
        device("/dev/video0", Evidence::NotAccepted),
        device("/dev/video2", Evidence::IrName),
    ];
    let resolved = vec![Some("/dev/video0".to_string()), Some("/dev/video2".to_string())];
    let d = strict_device_for_path(&all, &resolved, Some("/dev/video2")).unwrap();
    assert_eq!(d.node, "/dev/video2");
    assert!(is_strict_device_path(&all, &resolved, Some("/dev/video2")));
    assert!(!is_strict_device_path(&all, &resolved, Some("/dev/video0")));
    assert!(!is_strict_device_path(&all, &resolved, None));
    let unresolved = vec![Some("/dev/video0".to_string()), None];
    assert!(!is_strict_device_path(&all, &unresolved, Some("/dev/video2")));
}
