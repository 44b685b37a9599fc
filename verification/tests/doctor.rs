use paniolo::daemons::first_program_token;
use paniolo::doctor::{
    check_step, hook_probe, interpret, report_line, video_probe_script, Probe, Status, Step,
    HOOK_PATH_PREFIX,
};
use paniolo::model::{ChannelKind, ResolvedChannel, ResolvedTarget};

fn chan(kind: ChannelKind, name: &str, fields: Vec<(&'static str, &str)>) -> ResolvedChannel {
    ResolvedChannel {
        kind,
        name: name.to_string(),
        host: "bench1".to_string(),
        fields: fields.into_iter().map(|(k, v)| (k, v.to_string())).collect(),
    }
}

fn target(channels: Vec<ResolvedChannel>) -> ResolvedTarget {
    ResolvedTarget {
        name: "t".to_string(),
        default_host: "bench1".to_string(),
        description: None,
        channels,
    }
}

#[test]
fn hook_path_prefix_covers_user_and_system_libexec() {
    assert!(HOOK_PATH_PREFIX.contains("$HOME/.local/libexec/paniolo/bin"));
    assert!(HOOK_PATH_PREFIX.contains("/usr/libexec/paniolo/bin"));
    assert!(HOOK_PATH_PREFIX.ends_with(';'));
}

#[test]
fn hook_probe_picks_path_vs_name_lookup() {
    assert!(matches!(hook_probe("/opt/bin/zigplug"), Probe::Exists(_)));
    assert!(matches!(hook_probe("zigplug"), Probe::OnHookPath(_)));
}

#[test]
fn hook_probe_skips_a_leading_env_assignment() {
    let cmd = "AMT_PASSWORD=hunter2 /opt/bin/amt-tool cycle";
    let prog = first_program_token(cmd).unwrap_or_default();
    assert_eq!(prog, "/opt/bin/amt-tool");
    assert!(matches!(hook_probe(&prog), Probe::Exists(p) if p == "/opt/bin/amt-tool"));
}

#[test]
fn every_probe_renders_posix_for_the_remote_hop() {
    for p in [
        Probe::Exists("/dev/ttyUSB0".to_string()),
        Probe::OnHookPath("zigplug".to_string()),
        Probe::Video("/dev/video0".to_string()),
        Probe::NetInterface("eth0".to_string()),
        Probe::Adb { bin: "adb".to_string(), serial: Some("XYZ".to_string()) },
    ] {
        assert!(!p.to_posix().is_empty());
    }
}

#[test]
fn video_probe_searches_helper_dirs_then_path_then_cargo() {
    let s = video_probe_script("/dev/video0");
    assert!(s.contains("/usr/libexec/paniolo/bin"), "{s}");
    assert!(s.contains("$HOME/.cargo/bin"), "{s}");
    assert!(s.contains("command -v hdmicap"), "{s}");
    assert!(s.starts_with("test -e /dev/video0 && exit 0"), "{s}");
}

#[test]
fn interpret_maps_exit_codes_to_statuses() {
    assert_eq!(interpret(None, "x"), (Status::Unreachable, "host unreachable".to_string()));
    assert_eq!(interpret(Some(255), "x"), (Status::Unreachable, "host unreachable".to_string()));
    assert_eq!(interpret(Some(0), "/dev/a"), (Status::Present, "/dev/a".to_string()));
    assert_eq!(interpret(Some(1), "/dev/a"), (Status::Missing, "/dev/a".to_string()));
    assert_eq!(Status::Present.label(), "ok");
    assert!(Status::Missing.is_problem());
    assert!(!Status::Incomplete.is_problem());
}

#[test]
fn a_serial_check_probes_its_device_then_judges_the_code() {
    let ch = chan(ChannelKind::Serial, "console", vec![("device", "/dev/ttyUSB0")]);
    let rt = target(vec![]);
    match check_step(&ch, &rt, &vec![]) {
        Step::Run(Probe::Exists(p)) => assert_eq!(p, "/dev/ttyUSB0"),
        _ => panic!("expected an existence probe"),
    }
    match check_step(&ch, &rt, &vec![Some(0)]) {
        Step::Done(s, d) => {
            assert_eq!(s, Status::Present);
            assert_eq!(d, "/dev/ttyUSB0");
        }
        _ => panic!("expected a verdict"),
    }
    let bare = chan(ChannelKind::Serial, "console", vec![]);
    assert!(matches!(check_step(&bare, &rt, &vec![]), Step::Done(Status::Incomplete, _)));
}

#[test]
fn a_video_check_tells_a_missing_tool_from_a_missing_device() {
    let ch = chan(ChannelKind::Video, "video", vec![("device", "/dev/video0")]);
    let rt = target(vec![]);
    match check_step(&ch, &rt, &vec![Some(3)]) {
        Step::Done(s, d) => {
            assert_eq!(s, Status::Missing);
            assert_eq!(d, "/dev/video0 (hdmicap not installed)");
        }
        _ => panic!("expected a verdict"),
    }
}

#[test]
fn a_power_check_with_a_dangling_interface_is_missing() {
    let ch = chan(ChannelKind::Power, "power", vec![("serial_interface", "console")]);
    let rt = target(vec![]);
    match check_step(&ch, &rt, &vec![]) {
        Step::Done(s, d) => {
            assert_eq!(s, Status::Missing);
            assert_eq!(d, "serial_interface 'console' has no matching serial");
        }
        _ => panic!("expected a verdict"),
    }
}

#[test]
fn report_lines_are_tab_separated() {
    let ch = chan(ChannelKind::Serial, "console", vec![]);
    assert_eq!(
        report_line("pi5", &ch, Status::Missing, "/dev/x"),
        "pi5\tserial console\t@bench1\tMISSING\t/dev/x"
    );
    let v = chan(ChannelKind::Video, "video", vec![]);
    assert_eq!(report_line("pi5", &v, Status::Present, "ok"), "pi5\tvideo\t@bench1\tok\tok");
}

#[test]
fn the_doctor_ends_clean_or_counts_its_problems() {
    let (code, msg) = paniolo::doctor::doctor_outcome(0, &vec![Status::Present, Status::Incomplete]);
    assert_eq!((code, msg.as_str()), (0, "All configured channels present."));
    let (code, msg) =
        paniolo::doctor::doctor_outcome(1, &vec![Status::Missing, Status::Present, Status::Unreachable]);
    assert_eq!((code, msg.as_str()), (1, "3 problem(s) found."));
}

#[test]
fn doctor_checks_the_named_target_or_every_one() {
    let t = paniolo::model::Target::default();
    let lab = paniolo::model::Lab {
        hosts: vec![],
        targets: vec![("a".to_string(), t.clone()), ("b".to_string(), t)],
    };
    assert_eq!(paniolo::doctor::doctor_targets(&lab, None), vec!["a", "b"]);
    assert_eq!(paniolo::doctor::doctor_targets(&lab, Some("zz")), vec!["zz"]);
    assert!(paniolo::doctor::checks_host("bench1", None));
    assert!(paniolo::doctor::checks_host("bench1", Some("bench1")));
    assert!(!paniolo::doctor::checks_host("local", Some("bench1")));
}
