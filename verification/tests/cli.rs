use paniolo::cli::{
    dashboard_url, hid_command_line, normalize_sense, pick_serial, power_state_word, resolve_single_target,
    serial_log_args, DashboardLinks, LogQuery,
};
use paniolo::model::{Lab, SerialChannel, Target};

fn serial(name: &str) -> SerialChannel {
    SerialChannel {
        name: name.to_string(),
        device: format!("/dev/{name}"),
        baud: 115200,
        power_sense_signal: None,
        power_button: false,
        host: None,
    }
}

fn lab_with(names: &[&str]) -> Lab {
    Lab { hosts: Vec::new(), targets: names.iter().map(|n| (n.to_string(), Target::default())).collect() }
}

fn query() -> LogQuery {
    LogQuery { tail: None, from: None, to: None, since: None, raw: false, json: false, no_pending: false }
}

#[test]
fn the_sole_target_is_the_default() {
    assert_eq!(resolve_single_target(&lab_with(&["pi5"]), None), Ok("pi5".to_string()));
    assert_eq!(resolve_single_target(&lab_with(&["pi5", "nuc"]), Some("x")), Ok("x".to_string()));
    assert_eq!(resolve_single_target(&lab_with(&[]), None), Err("No targets configured.".to_string()));
    assert_eq!(
        resolve_single_target(&lab_with(&["a", "b"]), None),
        Err("Multiple targets (a, b) — specify one with -t.".to_string())
    );
}

#[test]
fn picking_a_serial_interface() {
    let two = vec![serial("console"), serial("debug")];
    assert_eq!(pick_serial(&two, Some("debug")).unwrap().name, "debug");
    assert_eq!(
        pick_serial(&two, None).unwrap_err(),
        "multiple serial interfaces (console, debug); specify one with -i"
    );
    assert_eq!(pick_serial(&two, Some("x")).unwrap_err(), "no serial interface 'x' (have: console, debug)");
    assert_eq!(pick_serial(&two[..1], None).unwrap().name, "console");
    assert_eq!(pick_serial(&[], None).unwrap_err(), "no serial interfaces configured (paniolo serial add ...)");
}

#[test]
fn sense_signals_are_lower_cased_and_checked() {
    assert_eq!(normalize_sense(Some("CTS")), Ok(Some("cts".to_string())));
    assert_eq!(normalize_sense(Some("None")), Ok(None));
    assert_eq!(normalize_sense(None), Ok(None));
    assert_eq!(
        normalize_sense(Some("rts")),
        Err("Unknown sense signal 'rts'. Valid: cts, dsr, dcd, ri, none".to_string())
    );
}

#[test]
fn the_dashboard_url_carries_the_streams() {
    let local = DashboardLinks { serial_ws: None, serial_port: Some(8724), interface: Some("console".into()), hid_ws: None, hid_port: Some(9000) };
    assert_eq!(dashboard_url("http://127.0.0.1:7000", &local), "http://127.0.0.1:7000/?serial=8724&interface=console&hid=9000");
    let tunnelled = DashboardLinks {
        serial_ws: Some("ws://127.0.0.1:5/stream".into()),
        serial_port: Some(1),
        interface: None,
        hid_ws: None,
        hid_port: None,
    };
    assert_eq!(dashboard_url("http://h", &tunnelled), "http://h/?serialws=ws://127.0.0.1:5/stream");
    let none = DashboardLinks { serial_ws: None, serial_port: None, interface: None, hid_ws: None, hid_port: None };
    assert_eq!(dashboard_url("http://h", &none), "http://h");
}

#[test]
fn serial_log_arguments_name_the_sole_interface_and_the_range() {
    let one = vec![serial("console")];
    assert_eq!(serial_log_args(None, &one, &query()), vec!["log", "--interface", "console"]);
    let two = vec![serial("console"), serial("debug")];
    assert_eq!(serial_log_args(None, &two, &query()), vec!["log"]);
    let q = LogQuery { tail: Some(20), from: Some(3), to: None, since: Some(99), raw: true, json: false, no_pending: true };
    assert_eq!(
        serial_log_args(Some("debug"), &two, &q),
        vec!["log", "--interface", "debug", "--tail", "20", "--from", "3", "--since", "99", "--raw", "--no-pending"]
    );
}

#[test]
fn a_state_hook_answers_with_its_first_word() {
    assert_eq!(power_state_word("on\n"), Some(true));
    assert_eq!(power_state_word("  OFF (standby)"), Some(false));
    assert_eq!(power_state_word("unknown"), None);
    assert_eq!(power_state_word(""), None);
    assert_eq!(power_state_word("online"), None);
}

#[test]
fn hid_arguments_are_quoted_onto_the_helper() {
    let args = vec!["type".to_string(), "hello world".to_string(), "it's".to_string()];
    assert_eq!(
        hid_command_line("hidrig -d /dev/ttyUSB0", &args),
        "hidrig -d /dev/ttyUSB0 type 'hello world' 'it'\\''s'"
    );
}

#[test]
fn serial_set_refuses_to_clear_a_sense_signal() {
    assert_eq!(paniolo::cli::sense_for_update(None), Ok(None));
    assert_eq!(paniolo::cli::sense_for_update(Some("CTS")), Ok(Some("cts".to_string())));
    assert_eq!(
        paniolo::cli::sense_for_update(Some("none")),
        Err("`set` can't clear a sense signal. Remove and re-add the interface to clear it.".to_string())
    );
    assert!(paniolo::cli::sense_for_update(Some("xyz")).unwrap_err().starts_with("Unknown sense signal 'xyz'"));
}

#[test]
fn serial_send_reads_one_or_two_positionals() {
    assert_eq!(paniolo::cli::send_target_and_text("pi5".into(), Some("hello".into()), None), (Some("pi5".into()), "hello".into()));
    assert_eq!(paniolo::cli::send_target_and_text("hello".into(), None, Some("pi5".into())), (Some("pi5".into()), "hello".into()));
    assert_eq!(paniolo::cli::send_target_and_text("hello".into(), None, None), (None, "hello".into()));
}

#[test]
fn the_local_hid_command_is_found_or_refused() {
    let hid = |cmd: Option<&str>, host: Option<&str>| paniolo::model::HidChannel { cmd: cmd.map(String::from), host: host.map(String::from) };
    let lab = |h: Option<paniolo::model::HidChannel>| paniolo::model::Lab { hosts: vec![], targets: vec![("t".to_string(), paniolo::model::Target { hid: h, ..paniolo::model::Target::default() })] };
    assert_eq!(paniolo::cli::local_hid(&lab(Some(hid(Some("ch9329"), None))), "t").unwrap(), Some(Some("ch9329".to_string())));
    assert_eq!(paniolo::cli::local_hid(&lab(Some(hid(None, None))), "t").unwrap(), Some(None));
    assert_eq!(paniolo::cli::local_hid(&lab(Some(hid(Some("x"), Some("bench1")))), "t").unwrap(), None);
    assert_eq!(paniolo::cli::local_hid(&lab(None), "t").unwrap(), None);
    assert_eq!(paniolo::cli::local_hid(&lab(None), "u").unwrap_err(), "target 'u' not found in lab");
    assert_eq!(
        paniolo::cli::hid_cmd_missing("t"),
        "hid channel for 't' has no cmd (paniolo hid set -t t --cmd ...)"
    );
}
