use paniolo::labfile::{headed_text, LabFile};
use paniolo::model::{validate_for_save, Host, Lab, SerialChannel, Target};

fn create() -> LabFile {
    LabFile::create()
}

fn host(ssh: &str) -> Host {
    Host { ssh: ssh.to_string(), ..Host::default() }
}

fn target<'a>(lf: &'a LabFile, name: &str) -> &'a Target {
    &lf.lab.targets[lf.lab.find_target(name).expect("target")].1
}

fn save(lf: &LabFile) -> Result<(), String> {
    validate_for_save(&lf.lab).map_err(|e| e.0)
}

#[test]
fn build_round_trips() {
    let mut lf = create();
    lf.add_host("bench1", "u@bench1", None, None, Some("~/.ssh/id"), None, None).unwrap();
    lf.add_target("fortune", Some("bench1"), Some("a pi")).unwrap();
    lf.set_netboot("fortune", Some("en0"), None, Some("/srv/tftp"), Some("grubaa64.efi"), None, None, None)
        .unwrap();
    lf.add_serial("fortune", "console", "/dev/ttyUSB0", 115200, None, false, None).unwrap();
    lf.add_serial("fortune", "bmc", "/dev/ttyUSB1", 9600, Some("cts"), false, None).unwrap();
    save(&lf).unwrap();
    let t = target(&lf, "fortune");
    assert_eq!(t.host.as_deref(), Some("bench1"));
    assert_eq!(t.netboot.as_ref().unwrap().interface.as_deref(), Some("en0"));
    assert_eq!(t.netboot.as_ref().unwrap().boot_file.as_deref(), Some("grubaa64.efi"));
    assert_eq!(t.serial.len(), 2);
    assert_eq!(t.serial[1].baud, 9600);
    assert_eq!(lf.lab.hosts[0].1.identity.as_deref(), Some("~/.ssh/id"));
}

#[test]
fn rename_target_refuses_missing_and_collision() {
    let mut lf = create();
    lf.add_target("a", None, None).unwrap();
    lf.add_target("b", None, None).unwrap();
    let e = lf.rename_target("a", "b").unwrap_err();
    assert!(e.0.contains("already exists"), "{}", e.0);
    let e = lf.rename_target("ghost", "c").unwrap_err();
    assert!(e.0.contains("no target 'ghost'"), "{}", e.0);
}

#[test]
fn renaming_there_and_back_restores_the_order() {
    let mut lf = create();
    for n in ["a", "m", "z"] {
        lf.add_target(n, None, None).unwrap();
    }
    lf.rename_target("m", "zz").unwrap();
    assert_eq!(lf.lab.target_names(), vec!["a", "z", "zz"]);
    lf.rename_target("zz", "m").unwrap();
    assert_eq!(lf.lab.target_names(), vec!["a", "m", "z"]);
}

#[test]
fn remove_host_blocked_while_referenced() {
    let mut lf = create();
    lf.add_host("bench1", "u@b1", None, None, None, None, None).unwrap();
    lf.add_target("fortune", Some("bench1"), None).unwrap();
    let e = lf.remove_host("bench1").unwrap_err();
    assert!(e.0.contains("still used by: fortune"), "{}", e.0);
    lf.update_target("fortune", Some("local"), None).unwrap();
    lf.set_video("fortune", None, None, Some("bench1")).unwrap();
    let e = lf.remove_host("bench1").unwrap_err();
    assert_eq!(e.0, "host 'bench1' is still used by: fortune");
    lf.remove_video("fortune").unwrap();
    lf.remove_host("bench1").unwrap();
    assert!(lf.lab.hosts.is_empty());
    assert_eq!(lf.remove_host("bench1").unwrap_err().0, "no host 'bench1'");
}

#[test]
fn duplicate_serial_rejected() {
    let mut lf = create();
    lf.add_target("t", None, None).unwrap();
    lf.add_serial("t", "console", "/dev/a", 115200, None, false, None).unwrap();
    let e = lf.add_serial("t", "console", "/dev/b", 115200, None, false, None).unwrap_err();
    assert!(e.0.contains("already exists"), "{}", e.0);
}

#[test]
fn unknown_host_ref_fails_on_save() {
    let mut lf = create();
    lf.add_target("t", Some("ghost"), None).unwrap();
    assert!(save(&lf).is_err());
}

#[test]
fn set_power_writes_new_hook_fields() {
    let mut lf = create();
    lf.add_target("t", None, None).unwrap();
    lf.set_power("t", Some("cycle.sh"), Some("on.sh"), Some("off.sh"), Some("state.sh"), None, None).unwrap();
    save(&lf).unwrap();
    let p = target(&lf, "t").power.as_ref().unwrap();
    assert_eq!(p.cycle_cmd.as_deref(), Some("cycle.sh"));
    assert_eq!(p.on_cmd.as_deref(), Some("on.sh"));
    assert_eq!(p.off_cmd.as_deref(), Some("off.sh"));
    assert_eq!(p.state_cmd.as_deref(), Some("state.sh"));
}

#[test]
fn set_power_partial_update_preserves_others() {
    let mut lf = create();
    lf.add_target("t", None, None).unwrap();
    lf.set_power("t", Some("cycle.sh"), None, None, None, None, None).unwrap();
    lf.set_power("t", None, Some("on.sh"), None, None, None, None).unwrap();
    save(&lf).unwrap();
    let p = target(&lf, "t").power.as_ref().unwrap();
    assert_eq!(p.cycle_cmd.as_deref(), Some("cycle.sh"), "cycle_cmd preserved");
    assert_eq!(p.on_cmd.as_deref(), Some("on.sh"), "on_cmd set");
}

#[test]
fn set_hid_round_trips_and_removes() {
    let mut lf = create();
    lf.add_target("t", None, None).unwrap();
    lf.set_hid("t", Some("hidrig -d /dev/cu.usbserial-AB12"), None).unwrap();
    save(&lf).unwrap();
    assert_eq!(target(&lf, "t").hid.as_ref().unwrap().cmd.as_deref(), Some("hidrig -d /dev/cu.usbserial-AB12"));
    lf.remove_hid("t").unwrap();
    save(&lf).unwrap();
    assert!(target(&lf, "t").hid.is_none());
    assert_eq!(lf.remove_hid("t").unwrap_err().0, "target 't': no hid channel");
}

#[test]
fn set_adb_round_trips_and_removes() {
    let mut lf = create();
    lf.add_target("pixel", None, None).unwrap();
    lf.set_adb("pixel", Some("39021FDH200xyz"), None, None).unwrap();
    save(&lf).unwrap();
    let a = target(&lf, "pixel").adb.as_ref().unwrap();
    assert_eq!(a.serial.as_deref(), Some("39021FDH200xyz"));
    assert!(a.adb.is_none());
    lf.remove_adb("pixel").unwrap();
    save(&lf).unwrap();
    assert!(target(&lf, "pixel").adb.is_none());
}

#[test]
fn remove_last_serial_drops_array() {
    let mut lf = create();
    lf.add_target("t", None, None).unwrap();
    lf.add_serial("t", "console", "/dev/a", 115200, None, false, None).unwrap();
    lf.remove_serial("t", "console").unwrap();
    save(&lf).unwrap();
    assert!(target(&lf, "t").serial.is_empty());
}

#[test]
fn update_serial_changes_only_what_is_given() {
    let mut lf = create();
    lf.add_target("t", None, None).unwrap();
    lf.add_serial("t", "console", "/dev/a", 115200, Some("cts"), true, None).unwrap();
    lf.update_serial("t", "console", None, Some(9600), None, Some(false), None).unwrap();
    let s = &target(&lf, "t").serial[0];
    assert_eq!((s.device.as_str(), s.baud, s.power_sense_signal.as_deref(), s.power_button), ("/dev/a", 9600, Some("cts"), false));
    assert_eq!(lf.update_serial("t", "bmc", None, None, None, None, None).unwrap_err().0, "target 't': no serial 'bmc'");
}

#[test]
fn set_video_round_trips_ocr_mode_and_keeps_it_across_a_device_change() {
    let mut lf = create();
    lf.add_target("t", None, None).unwrap();
    lf.set_video("t", Some("/dev/video0"), Some("gui"), None).unwrap();
    save(&lf).unwrap();
    let v = target(&lf, "t").video.as_ref().unwrap();
    assert_eq!(v.device.as_deref(), Some("/dev/video0"));
    assert_eq!(v.ocr_mode.as_deref(), Some("gui"));
    lf.set_video("t", Some("/dev/video1"), None, None).unwrap();
    save(&lf).unwrap();
    let v = target(&lf, "t").video.as_ref().unwrap();
    assert_eq!(v.device.as_deref(), Some("/dev/video1"));
    assert_eq!(v.ocr_mode.as_deref(), Some("gui"));
    lf.set_video("t", None, Some("fast"), None).unwrap();
    assert!(save(&lf).unwrap_err().contains("invalid ocr_mode 'fast'"));
}

#[test]
fn add_rename_and_set_reject_invalid_names() {
    let mut lf = create();
    for bad in ["", ".", "..", "-x", "a b", "a/b"] {
        let e = lf.add_host(bad, "u@b", None, None, None, None, None).unwrap_err();
        assert!(e.0.starts_with("invalid host name"), "{bad:?}: {}", e.0);
        let e = lf.add_target(bad, None, None).unwrap_err();
        assert!(e.0.starts_with("invalid target name"), "{bad:?}: {}", e.0);
    }
    lf.add_target("ok", None, None).unwrap();
    let e = lf.rename_target("ok", "not ok").unwrap_err();
    assert!(e.0.starts_with("invalid target name 'not ok'"), "{}", e.0);
    let e = lf.add_serial("ok", "con sole", "/dev/a", 115200, None, false, None).unwrap_err();
    assert!(e.0.starts_with("invalid serial interface name 'con sole'"), "{}", e.0);
    let e = lf.update_target("../x", None, Some("d")).unwrap_err();
    assert!(e.0.starts_with("invalid target name"), "{}", e.0);
    save(&lf).unwrap();
    assert_eq!(lf.lab.target_names(), vec!["ok"]);
    assert!(lf.lab.hosts.is_empty());
}

#[test]
fn save_refuses_a_dangling_power_serial_interface() {
    let mut lf = create();
    lf.add_target("t", None, None).unwrap();
    lf.set_power("t", None, None, None, None, Some("console"), None).unwrap();
    let e = save(&lf).unwrap_err();
    assert!(e.contains("power.serial_interface 'console'"), "{e}");
    lf.add_serial("t", "console", "/dev/a", 115200, None, false, None).unwrap();
    save(&lf).unwrap();
    lf.remove_serial("t", "console").unwrap();
    let e = save(&lf).unwrap_err();
    assert!(e.contains("power.serial_interface 'console'"), "{e}");
}

#[test]
fn hosts_and_targets_stay_in_name_order() {
    let mut lf = create();
    for n in ["m", "a", "z"] {
        lf.add_host(n, "u@x", None, None, None, None, None).unwrap();
        lf.add_target(n, None, None).unwrap();
    }
    let hosts: Vec<&str> = lf.lab.hosts.iter().map(|(k, _)| k.as_str()).collect();
    assert_eq!(hosts, vec!["a", "m", "z"]);
    assert_eq!(lf.lab.target_names(), vec!["a", "m", "z"]);
    lf.remove_target("m").unwrap();
    assert_eq!(lf.lab.target_names(), vec!["a", "z"]);
    assert_eq!(lf.add_host("a", "u@y", None, None, None, None, None).unwrap_err().0, "host 'a' already exists");
    lf.update_host("a", None, Some("desk"), None, None, None, None).unwrap();
    assert_eq!(lf.lab.hosts[0].1.description.as_deref(), Some("desk"));
    assert_eq!(lf.lab.hosts[0].1.ssh, "u@x");
}

#[test]
fn comments_preserved_across_edit() {
    let text = "# hand-written\n[hosts.bench1]\nssh = \"u@b1\"  # noisy\n";
    let lab = Lab { hosts: vec![("bench1".to_string(), host("u@b1"))], targets: vec![] };
    let mut lf = LabFile::open(text, lab).unwrap();
    lf.update_host("bench1", None, None, None, Some("~/.ssh/id"), None, None).unwrap();
    let out = lf.save_text().unwrap();
    assert!(out.contains("# hand-written"), "{out}");
    assert!(out.contains("# noisy"), "{out}");
    assert!(out.contains("identity"), "{out}");
}

#[test]
fn rename_target_carries_channels_comments_and_position() {
    let text = "[targets.old]\nhost = \"b1\"  # pinned\n\n# capture dongle\n[targets.old.video]\ndevice = \"/dev/v0\"\n\n[[targets.old.serial]]\nname = \"console\"\ndevice = \"/dev/a\"\nbaud = 115200\n\n[hosts.b1]\nssh = \"u@b1\"\n";
    let t = Target {
        host: Some("b1".to_string()),
        video: Some(paniolo::model::VideoChannel { device: Some("/dev/v0".to_string()), host: None, ocr_mode: None }),
        serial: vec![SerialChannel {
            name: "console".to_string(),
            device: "/dev/a".to_string(),
            baud: 115200,
            power_sense_signal: None,
            power_button: false,
            host: None,
        }],
        ..Target::default()
    };
    let lab = Lab { hosts: vec![("b1".to_string(), host("u@b1"))], targets: vec![("old".to_string(), t)] };
    let mut lf = LabFile::open(text, lab).unwrap();
    lf.rename_target("old", "new").unwrap();
    let out = lf.save_text().unwrap();
    assert!(out.contains("[targets.new]"), "{out}");
    assert!(out.contains("[targets.new.video]"), "{out}");
    assert!(out.contains("[[targets.new.serial]]"), "{out}");
    assert!(!out.contains("targets.old"), "{out}");
    assert!(out.contains("# capture dongle"), "{out}");
    assert!(out.contains("# pinned"), "{out}");
    assert!(
        out.find("[targets.new]").unwrap() < out.find("[hosts.b1]").unwrap(),
        "renamed target should keep its place in the document:\n{out}"
    );
    assert!(lf.lab.find_target("old").is_none());
    let t = target(&lf, "new");
    assert_eq!(t.host.as_deref(), Some("b1"));
    assert_eq!(t.serial.len(), 1);
    assert!(t.video.is_some());
}

#[test]
fn update_target_migrates_legacy_note_to_description() {
    let text = "[targets.oldpi]\nnote = \"legacy\"\n";
    let t = Target { description: Some("legacy".to_string()), ..Target::default() };
    let lab = Lab { hosts: vec![], targets: vec![("oldpi".to_string(), t)] };
    let mut lf = LabFile::open(text, lab).unwrap();
    lf.update_target("oldpi", None, Some("modern")).unwrap();
    let out = lf.save_text().unwrap();
    assert!(out.contains("description = \"modern\""), "{out}");
    assert!(!out.contains("note ="), "legacy note key removed: {out}");
    assert_eq!(target(&lf, "oldpi").description.as_deref(), Some("modern"));
}

#[test]
fn removing_the_last_serial_drops_the_array_from_the_text() {
    let mut lf = create();
    lf.add_target("t", None, None).unwrap();
    lf.add_serial("t", "console", "/dev/a", 115200, None, false, None).unwrap();
    lf.remove_serial("t", "console").unwrap();
    let out = lf.save_text().unwrap();
    assert!(!out.contains("serial"), "{out}");
    assert!(target(&lf, "t").serial.is_empty());
}

#[test]
fn inline_hosts_table_is_an_error_not_a_panic() {
    let text = "hosts = { b1 = { ssh = \"u@b1\" } }\n";
    let lab = Lab { hosts: vec![("b1".to_string(), host("u@b1"))], targets: vec![] };
    let mut lf = LabFile::open(text, lab).unwrap();
    let e = lf.add_host("b2", "u@b2", None, None, None, None, None).unwrap_err();
    assert!(e.0.contains("`hosts` is not a standard table"), "{}", e.0);
    assert!(e.0.contains("[hosts]"), "{}", e.0);
    assert_eq!(lf.lab.hosts.len(), 1);
}

#[test]
fn inline_target_table_is_an_error_not_a_panic() {
    let text = "[targets]\nt = { description = \"inline\" }\n[targets.plain]\n";
    let lab = Lab {
        hosts: vec![],
        targets: vec![
            ("plain".to_string(), Target::default()),
            ("t".to_string(), Target { description: Some("inline".to_string()), ..Target::default() }),
        ],
    };
    let mut lf = LabFile::open(text, lab).unwrap();
    let e = lf.set_video("t", Some("/dev/video0"), None, None).unwrap_err();
    assert!(e.0.contains("`targets.t` is not a standard table"), "{}", e.0);
    assert!(e.0.contains("[targets.t]"), "{}", e.0);
    lf.set_video("plain", Some("/dev/video0"), None, None).unwrap();
    let lab = Lab { hosts: vec![], targets: vec![("t".to_string(), Target::default())] };
    let mut lf = LabFile::open("targets = { t = { } }\n", lab).unwrap();
    let e = lf.update_target("t", None, Some("x")).unwrap_err();
    assert!(e.0.contains("`targets` is not a standard table"), "{}", e.0);
}

#[test]
fn a_new_lab_is_saved_under_the_header() {
    let mut lf = create();
    lf.add_target("t", None, Some("a board")).unwrap();
    let out = lf.save_text().unwrap();
    assert!(out.starts_with("# paniolo lab \u{2014} managed by the `paniolo` CLI; hand-edits are preserved\n\n"), "{out}");
    assert!(out.contains("[targets.t]"), "{out}");
    assert_eq!(headed_text(true, "  # mine\n"), "  # mine\n");
    assert_eq!(headed_text(false, "x = 1\n"), "x = 1\n");
}

#[test]
fn a_text_toml_refuses_is_not_opened() {
    assert!(LabFile::open("[hosts\n", Lab::default()).is_err());
}

#[test]
fn saving_refuses_a_dangling_power_interface() {
    let mut lf = create();
    lf.add_target("t", None, None).unwrap();
    lf.set_power("t", Some("cycle"), None, None, None, Some("console"), None).unwrap();
    let e = lf.save_text().unwrap_err();
    assert!(e.0.contains("console"), "{}", e.0);
}

#[test]
fn a_channel_written_as_a_value_is_refused_by_name() {
    let text = "[targets.t]\nvideo = 3\n";
    let lab = Lab { hosts: vec![], targets: vec![("t".to_string(), Target::default())] };
    let mut lf = LabFile::open(text, lab).unwrap();
    let e = lf.set_video("t", Some("/dev/video0"), None, None).unwrap_err();
    assert_eq!(e.0, "target 't': video is not a table");
    assert!(target(&lf, "t").video.is_none());
    assert_eq!(lf.rendered(), text);
}

#[test]
fn a_serial_written_as_a_table_is_refused() {
    let text = "[targets.t]\n[targets.t.serial]\nname = \"console\"\n";
    let lab = Lab { hosts: vec![], targets: vec![("t".to_string(), Target::default())] };
    let mut lf = LabFile::open(text, lab).unwrap();
    let e = lf.add_serial("t", "console", "/dev/a", 115200, None, false, None).unwrap_err();
    assert_eq!(e.0, "target 't': serial is not [[serial]]");
    let e = lf.remove_serial("t", "console").unwrap_err();
    assert_eq!(e.0, "target 't': no serial 'console'");
}

#[test]
fn a_host_the_document_already_holds_is_refused() {
    let text = "[hosts.b1]\nssh = \"u@b1\"\n";
    let mut lf = LabFile::open(text, Lab::default()).unwrap();
    let e = lf.add_host("b1", "u@b1", None, None, None, None, None).unwrap_err();
    assert_eq!(e.0, "host 'b1' already exists");
    assert!(lf.lab.hosts.is_empty());
}

#[test]
fn edits_keep_the_text_holding_exactly_the_labs_names() {
    let mut lf = create();
    lf.add_host("b1", "u@b1", None, None, None, None, None).unwrap();
    lf.add_target("a", Some("b1"), None).unwrap();
    lf.add_target("z", None, None).unwrap();
    lf.add_serial("a", "console", "/dev/a", 115200, None, false, None).unwrap();
    lf.add_serial("a", "debug", "/dev/b", 9600, None, false, None).unwrap();
    lf.remove_serial("a", "console").unwrap();
    lf.rename_target("z", "y").unwrap();
    lf.remove_target("y").unwrap();
    let out = lf.rendered();
    assert!(out.contains("[hosts.b1]"), "{out}");
    assert!(out.contains("[targets.a]"), "{out}");
    assert!(!out.contains("targets.z") && !out.contains("targets.y"), "{out}");
    assert!(out.contains("name = \"debug\""), "{out}");
    assert!(!out.contains("console"), "{out}");
    assert_eq!(lf.lab.target_names(), vec!["a"]);
    assert_eq!(target(&lf, "a").serial.len(), 1);
}

#[test]
fn a_one_target_file_renders_its_channels() {
    let t = Target {
        description: Some("a pi".to_string()),
        serial: vec![SerialChannel {
            name: "console".to_string(),
            device: "/dev/a".to_string(),
            baud: 9600,
            power_sense_signal: Some("cts".to_string()),
            power_button: true,
            host: None,
        }],
        video: Some(paniolo::model::VideoChannel { device: Some("/dev/v0".to_string()), host: None, ocr_mode: None }),
        ..Target::default()
    };
    let lf = LabFile::for_target("pi", t);
    let out = lf.rendered();
    assert!(out.contains("[targets.pi]"), "{out}");
    assert!(out.contains("description = \"a pi\""), "{out}");
    assert!(out.contains("[[targets.pi.serial]]"), "{out}");
    assert!(out.contains("baud = 9600"), "{out}");
    assert!(out.contains("power_button = true"), "{out}");
    assert!(out.contains("power_sense_signal = \"cts\""), "{out}");
    assert!(out.contains("[targets.pi.video]"), "{out}");
    assert!(!out.contains("hosts"), "{out}");
    assert_eq!(lf.save_text().unwrap(), out);
}
