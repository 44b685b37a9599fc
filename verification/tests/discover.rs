use paniolo::discover::{
    inventory_lines, parse_adb_devices, prefer_callout, propose_target_block, AdbEntry, CaptureEntry,
    EthernetEntry, FlashEntry, Inventory,
};

fn s(x: &str) -> Option<String> {
    Some(x.to_string())
}

fn empty() -> Inventory {
    Inventory { ethernet: vec![], serial: vec![], video: vec![], adb: vec![], flash: vec![] }
}

fn eth(device: &str, active: bool) -> EthernetEntry {
    EthernetEntry { device: s(device), active: Some(active) }
}

fn cap(name: &str, id: Option<&str>) -> CaptureEntry {
    CaptureEntry { index: None, name: s(name), id: id.map(|x| x.to_string()) }
}

#[test]
fn propose_prefers_active_eth_and_first_serial() {
    let inv = Inventory {
        ethernet: vec![eth("en16", true), eth("en8", false)],
        serial: vec![s("/dev/tty.usbserial-A"), s("/dev/tty.usbserial-B")],
        video: vec![
            cap("USB Video", Some("0x8300000534d2109")),
            cap("FaceTime HD Camera", Some("0x11000005ac8514")),
        ],
        ..empty()
    };
    let block = propose_target_block("pi5", "bench1", &inv);
    assert!(block.contains("[targets.pi5]"), "{block}");
    assert!(block.contains("host = \"bench1\""), "{block}");
    assert!(block.contains("interface = \"en16\"  # carrier up"), "{block}");
    assert!(block.contains("# interface = \"en8\"  # alternative"), "{block}");
    assert!(block.contains("device = \"/dev/tty.usbserial-A\""), "{block}");
    assert!(block.contains("# another serial device: /dev/tty.usbserial-B"), "{block}");
    assert!(block.contains("[targets.pi5.video]"), "{block}");
    assert!(block.contains("device = \"0x8300000534d2109\"  # USB Video"), "{block}");
}

#[test]
fn propose_falls_back_to_name_without_id() {
    let inv = Inventory { video: vec![cap("USB Video", None)], ..empty() };
    let block = propose_target_block("t", "local", &inv);
    assert!(block.contains("device = \"USB Video\""), "{block}");
}

#[test]
fn propose_lists_duplicate_dongles_as_id_alternatives() {
    let inv = Inventory {
        video: vec![
            cap("USB Video", Some("0x8300000534d2109")),
            cap("USB Video", Some("0x8200000534d2109")),
        ],
        ..empty()
    };
    let block = propose_target_block("t", "local", &inv);
    assert!(block.contains("multiple capture devices"), "{block}");
    assert!(block.contains("# device = \"0x8300000534d2109\"  # USB Video"), "{block}");
    assert!(block.contains("# device = \"0x8200000534d2109\"  # USB Video"), "{block}");
}

#[test]
fn propose_with_empty_inventory_is_all_stubs() {
    let block = propose_target_block("t", "local", &empty());
    assert!(block.contains("# interface = \"\""), "{block}");
    assert!(block.contains("# [[targets.t.serial]]"), "{block}");
    assert!(block.contains("# [targets.t.video]"), "{block}");
    assert!(block.contains("# [targets.t.adb]  # no adb devices discovered"), "{block}");
}

#[test]
fn propose_includes_single_adb_device() {
    let inv = Inventory {
        adb: vec![AdbEntry { serial: s("33271JEGR02033"), model: s("Pixel 6a") }],
        ..empty()
    };
    let block = propose_target_block("pixel", "bench1", &inv);
    assert!(block.contains("[targets.pixel.adb]"), "{block}");
    assert!(block.contains("serial = \"33271JEGR02033\"  # Pixel 6a"), "{block}");
}

#[test]
fn propose_lists_multiple_adb_devices_as_alternatives() {
    let inv = Inventory {
        adb: vec![
            AdbEntry { serial: s("AAA"), model: s("Pixel 6a") },
            AdbEntry { serial: s("BBB"), model: None },
        ],
        ..empty()
    };
    let block = propose_target_block("t", "local", &inv);
    assert!(block.contains("multiple adb devices"), "{block}");
    assert!(block.contains("# serial = \"AAA\"  # Pixel 6a"), "{block}");
    assert!(block.contains("# serial = \"BBB\""), "{block}");
}

#[test]
fn propose_includes_flash_for_discovered_bao1x_console() {
    let inv = Inventory {
        serial: vec![s("/dev/cu.usbmodem1101")],
        flash: vec![FlashEntry { device: s("/dev/cu.usbmodem1101"), desc: s("Baochip-1x") }],
        ..empty()
    };
    let block = propose_target_block("dabao", "local", &inv);
    assert!(block.contains("[targets.dabao.flash]"), "{block}");
    assert!(block.contains("method = \"bao1x-uf2\""), "{block}");
    assert!(block.contains("baud 1000000"), "proposal names boot1's baud: {block}");
    let none = propose_target_block("t", "local", &empty());
    assert!(!none.contains(".flash]"), "{none}");
}

#[test]
fn propose_ends_with_the_power_stub_and_a_newline() {
    let block = propose_target_block("t", "local", &empty());
    assert!(block.ends_with("# cycle_cmd = \"/path/to/power-cycle.sh\"  # not discoverable\n"), "{block}");
    assert!(block.starts_with("[targets.t]\n"), "{block}");
}

#[test]
fn prefer_callout_drops_tty_siblings_only() {
    let mut devs = vec![
        ("/dev/tty.usbmodem1101".to_string(), "a".to_string()),
        ("/dev/cu.usbmodem1101".to_string(), "a".to_string()),
        ("/dev/tty.usbmodem2202".to_string(), "b".to_string()),
        ("/dev/ttyACM0".to_string(), "c".to_string()),
    ];
    prefer_callout(&mut devs);
    let names: Vec<&str> = devs.iter().map(|(d, _)| d.as_str()).collect();
    assert_eq!(names, vec!["/dev/cu.usbmodem1101", "/dev/tty.usbmodem2202", "/dev/ttyACM0"]);
}

#[test]
fn parse_adb_devices_keeps_only_authorized() {
    let text = "List of devices attached\n\
         * daemon not running; starting now at tcp:5037\n\
         33271JEGR02033         device usb:8-3.4 product:bluejay model:Pixel_6a transport_id:1\n\
         EMULATOR30            offline\n\
         FA6population          unauthorized\n";
    let devs = parse_adb_devices(text);
    assert_eq!(devs.len(), 1);
    assert_eq!(devs[0].serial.as_deref(), Some("33271JEGR02033"));
    assert_eq!(devs[0].model.as_deref(), Some("Pixel 6a"));
}

#[test]
fn the_inventory_reads_as_four_lines() {
    let inv = Inventory {
        ethernet: vec![
            EthernetEntry { device: Some("en7".into()), active: Some(true) },
            EthernetEntry { device: Some("en8".into()), active: Some(false) },
        ],
        serial: vec![Some("/dev/cu.usbserial-A".into()), None, Some("/dev/cu.usbmodem1".into())],
        video: vec![
            CaptureEntry { index: Some(0), name: Some("USB3 Video".into()), id: Some("0x1100000534d2109".into()) },
            CaptureEntry { index: None, name: Some("FaceTime HD Camera".into()), id: Some(String::new()) },
        ],
        adb: Vec::new(),
        flash: Vec::<FlashEntry>::new(),
    };
    assert_eq!(
        inventory_lines(&inv),
        vec![
            "usb-ethernet\ten7* en8",
            "serial\t/dev/cu.usbserial-A\n\t/dev/cu.usbmodem1",
            "capture\t0: USB3 Video  id=0x1100000534d2109\n\tnull: FaceTime HD Camera",
            "(* = carrier up)",
        ]
    );
    let empty = Inventory { ethernet: Vec::new(), serial: Vec::new(), video: Vec::new(), adb: Vec::new(), flash: Vec::new() };
    assert_eq!(inventory_lines(&empty), vec!["usb-ethernet\t(none)", "serial\t(none)", "capture\t(none)", "(* = carrier up)"]);
}
