use paniolo::cli::{local_power, local_serials, pick_serial, resolve_single_target};
use paniolo::error::{channel_missing, daemon_down, target_not_found, with_target, Kind, PanioloError};
use paniolo::model::{HidChannel, Lab, SerialChannel, Target};

fn lab() -> Lab {
    Lab {
        hosts: vec![],
        targets: vec![(
            "dut".into(),
            Target {
                serial: vec![SerialChannel {
                    name: "console".into(),
                    device: "/dev/ttyUSB-test".into(),
                    baud: 115200,
                    power_sense_signal: None,
                    power_button: false,
                    host: None,
                }],
                ..Default::default()
            },
        )],
    }
}

fn expect(e: &PanioloError, code: i32, kind: &str, target: Option<&str>, channel: Option<&str>) {
    assert_eq!(e.kind.exit_code(), code, "{e:?}");
    assert_eq!(e.kind.as_str(), kind, "{e:?}");
    assert_eq!(e.target.as_deref(), target, "{e:?}");
    assert_eq!(e.channel.as_deref(), channel, "{e:?}");
    assert!(e.host.is_none() && e.child_exit.is_none(), "{e:?}");
}

#[test]
fn unknown_target_is_not_configured() {
    let l = lab();
    assert!(l.resolved_target("nosuch").is_none());
    assert_eq!(local_power(&l, "nosuch").unwrap_err(), "target 'nosuch' not found in lab");
    let e = target_not_found("nosuch");
    assert_eq!(e.message, "target 'nosuch' not found in lab");
    expect(&e, 3, "not_configured", Some("nosuch"), None);
}

#[test]
fn missing_channel_is_not_configured() {
    let l = lab();
    let msg = local_power(&l, "dut").unwrap_err();
    assert_eq!(msg, "target 'dut' has no power channel (paniolo power set -t dut ...)");
    expect(&channel_missing("dut", "power", &msg), 3, "not_configured", Some("dut"), Some("power"));
    let rt = l.resolved_target("dut").unwrap();
    assert!(rt.channels.iter().all(|c| c.kind.as_str() != "hid"));
    expect(&channel_missing("dut", "hid", "no hid"), 3, "not_configured", Some("dut"), Some("hid"));
    let mut with_hid = lab();
    with_hid.targets[0].1.hid = Some(HidChannel { cmd: Some("ch9329".into()), host: None });
    assert!(with_hid.resolved_target("dut").unwrap().channels.iter().any(|c| c.kind.as_str() == "hid"));
}

#[test]
fn missing_serial_interface_is_not_configured() {
    let serials = local_serials(&lab(), "dut").unwrap();
    let msg = pick_serial(&serials, Some("nosuch")).unwrap_err();
    assert_eq!(msg, "no serial interface 'nosuch' (have: console)");
    expect(&channel_missing("dut", "serial", &msg), 3, "not_configured", Some("dut"), Some("serial"));
    assert_eq!(pick_serial(&serials, None).unwrap().name, "console");
}

#[test]
fn a_stopped_serial_daemon_is_daemon_down() {
    let e = with_target(daemon_down("serialcap", "serialcap is not running for 'dut'"), "dut");
    expect(&e, 100, "daemon_down", Some("dut"), Some("serial"));
}

#[test]
fn unknown_dtr_interface_is_not_configured() {
    let serials = local_serials(&lab(), "dut").unwrap();
    let msg = pick_serial(&serials, Some("nosuch")).unwrap_err();
    expect(&channel_missing("dut", "serial", &msg), 3, "not_configured", Some("dut"), Some("serial"));
}

#[test]
fn ambiguous_target_is_usage_unless_named() {
    let mut two = lab();
    two.targets.push(("nuc".into(), Target::default()));
    assert_eq!(resolve_single_target(&two, None).unwrap_err(), "Multiple targets (dut, nuc) — specify one with -t.");
    assert_eq!(resolve_single_target(&two, Some("nuc")).unwrap(), "nuc");
    assert_eq!(resolve_single_target(&lab(), None).unwrap(), "dut");
    assert_eq!(Kind::Usage.exit_code(), 2);
}
