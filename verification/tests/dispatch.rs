use paniolo::dispatch::{
    build_slice, capture_dir, discovery_cat_script, endpoint_from_answer, remote_argv, route,
    slice_name, strip_lab_option,
};
use paniolo::daemons::Endpoint;
use paniolo::model::{
    ChannelKind, HidChannel, Host, Lab, NetbootChannel, SerialChannel, Target, UsbChannel,
    VideoChannel,
};

fn host(ssh: &str) -> Host {
    Host { ssh: ssh.to_string(), ..Default::default() }
}

fn lab() -> Lab {
    Lab {
        hosts: vec![("bench1".into(), host("u@bench1")), ("bench2".into(), host("u@bench2"))],
        targets: vec![(
            "fortune".into(),
            Target {
                host: Some("bench1".into()),
                netboot: Some(NetbootChannel {
                    interface: Some("en0".into()),
                    host_ip: None,
                    tftp_root: None,
                    boot_file: None,
                    http_port: None,
                    content_type: None,
                    host: None,
                }),
                serial: vec![SerialChannel {
                    name: "console".into(),
                    device: "/dev/ttyUSB0".into(),
                    baud: 115200,
                    power_sense_signal: None,
                    power_button: false,
                    host: None,
                }],
                video: Some(VideoChannel {
                    device: Some("/dev/video0".into()),
                    host: Some("bench2".into()),
                    ocr_mode: Some("gui".into()),
                }),
                usb: Some(UsbChannel { cmd: Some("ch9329 -d /dev/ttyUSB1".into()), host: None }),
                hid: Some(HidChannel {
                    cmd: Some("ch9329 -d /dev/ttyUSB1".into()),
                    host: Some("bench2".into()),
                }),
                ..Default::default()
            },
        )],
    }
}

fn args(a: &[&str]) -> Vec<String> {
    a.iter().map(|s| s.to_string()).collect()
}

#[test]
fn slice_keeps_only_that_hosts_channels_host_stripped() {
    let s = build_slice(&lab(), "fortune", "bench1").unwrap();
    assert!(s.hosts.is_empty());
    assert_eq!(s.targets.len(), 1);
    assert_eq!(s.targets[0].0, "fortune");
    let t = &s.targets[0].1;
    assert!(t.netboot.is_some());
    assert_eq!(t.serial.len(), 1);
    assert!(t.video.is_none());
    assert!(t.hid.is_none());
    let usb = t.usb.as_ref().expect("usb channel shipped in the slice");
    assert_eq!(usb.cmd.as_deref(), Some("ch9329 -d /dev/ttyUSB1"));
    assert!(t.host.is_none());
    assert!(t.serial[0].host.is_none());
    assert!(usb.host.is_none());
}

#[test]
fn slice_for_the_other_host_carries_only_its_channels() {
    let s = build_slice(&lab(), "fortune", "bench2").unwrap();
    let t = &s.targets[0].1;
    assert!(t.video.is_some());
    assert!(t.hid.is_some());
    assert!(t.usb.is_none());
    assert!(t.netboot.is_none());
    assert!(t.serial.is_empty());
}

#[test]
fn slice_carries_the_videos_ocr_mode() {
    let s = build_slice(&lab(), "fortune", "bench2").unwrap();
    let v = s.targets[0].1.video.as_ref().unwrap();
    assert_eq!(v.device.as_deref(), Some("/dev/video0"));
    assert_eq!(v.ocr_mode.as_deref(), Some("gui"));
    assert!(v.host.is_none());
}

#[test]
fn slice_of_an_unknown_target_is_an_error() {
    let e = build_slice(&lab(), "nope", "bench1").unwrap_err();
    assert_eq!(e.0, "no target 'nope'");
}

#[test]
fn strip_lab_handles_both_forms() {
    let a = args(&["--lab", "/x", "serial", "connect", "fortune"]);
    assert_eq!(strip_lab_option(&a), vec!["serial", "connect", "fortune"]);
    let b = args(&["--lab=/x", "netboot", "start"]);
    assert_eq!(strip_lab_option(&b), vec!["netboot", "start"]);
}

#[test]
fn route_runs_remote_channels_on_their_host_and_local_ones_here() {
    let l = lab();
    assert_eq!(route(&l, "fortune", ChannelKind::Video, None, None).unwrap(), Some("bench2".to_string()));
    assert_eq!(
        route(&l, "fortune", ChannelKind::Serial, Some("console"), None).unwrap(),
        Some("bench1".to_string())
    );
    let e = route(&l, "nope", ChannelKind::Serial, None, None).unwrap_err();
    assert_eq!(e.0, "target 'nope' not found in lab");
    let mut local = lab();
    local.hosts[0].1.ssh = "local".into();
    assert_eq!(route(&local, "fortune", ChannelKind::Netboot, None, None).unwrap(), None);
}

#[test]
fn remote_argv_puts_the_slice_before_the_subcommand() {
    let sub = args(&["serial", "log", "fortune"]);
    assert_eq!(
        remote_argv("paniolo", "/tmp/slice.toml", &sub),
        vec!["paniolo", "--lab", "/tmp/slice.toml", "serial", "log", "fortune"]
    );
}

#[test]
fn helpers_format_paths_and_scripts() {
    assert_eq!(slice_name(42, 1700000000123), ".paniolo-lab-42-1700000000123.toml");
    assert_eq!(capture_dir("/tmp/x/shot.png"), "/tmp/x");
    assert_eq!(capture_dir("shot.png"), ".");
    assert_eq!(
        discovery_cat_script("serialcap"),
        "cat \"${PANIOLO_RUNTIME_BASE:-/tmp}/paniolo-$(id -u)/serialcap/daemon.json\" 2>/dev/null"
    );
}

#[test]
fn endpoint_from_answer_needs_a_clean_nonempty_answer() {
    assert!(endpoint_from_answer(1, "{\"pid\":3,\"port\":9}").is_none());
    assert!(endpoint_from_answer(0, "  \n").is_none());
    let ep = endpoint_from_answer(0, " {\"pid\":3,\"port\":9,\"token\":\"t\"}\n").unwrap();
    assert_eq!(ep, Endpoint { pid: 3, port: 9, token: Some("t".into()) });
}

#[test]
fn a_slice_routes_everything_here() {
    let s = build_slice(&lab(), "fortune", "bench2").unwrap();
    for kind in [ChannelKind::Video, ChannelKind::Hid, ChannelKind::Serial, ChannelKind::Power] {
        assert_eq!(route(&s, "fortune", kind, None, None).unwrap(), None);
    }
    let rt = s.resolved_target("fortune").unwrap();
    assert!(rt.channels.iter().all(|c| c.host == "local"));
}

#[test]
fn a_slice_keeping_a_repeated_serial_name_is_refused() {
    let mut l = lab();
    let mut second = l.targets[0].1.serial[0].clone();
    second.device = "/dev/ttyUSB9".into();
    l.targets[0].1.serial.push(second);
    let e = build_slice(&l, "fortune", "bench1").unwrap_err();
    assert_eq!(e.0, "target 'fortune': serial 'console' already exists");
    // On the other host neither interface is kept, so nothing is refused.
    assert!(build_slice(&l, "fortune", "bench2").is_ok());
}

#[test]
fn a_slice_of_an_invalidly_named_target_is_refused() {
    let mut l = lab();
    l.targets[0].0 = "-bad".into();
    let e = build_slice(&l, "-bad", "bench1").unwrap_err();
    assert!(e.0.contains("-bad"), "{}", e.0);
}

#[test]
fn the_slice_text_carries_no_host() {
    let text = paniolo::dispatch::slice_text(&lab(), "fortune", "bench1").unwrap();
    assert!(text.contains("[targets.fortune.netboot]"), "{text}");
    assert!(text.contains("[[targets.fortune.serial]]"), "{text}");
    assert!(text.contains("name = \"console\""), "{text}");
    assert!(!text.contains("bench"), "{text}");
    assert!(!text.contains("[hosts"), "{text}");
}
