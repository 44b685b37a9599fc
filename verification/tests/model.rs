use paniolo::model::{
    channel_host, is_valid_name, validate, validate_for_save, validate_name, ChannelKind, Host,
    Lab, NetbootChannel, PowerChannel, SerialChannel, Target, UsbChannel, VideoChannel, LOCAL,
};

fn host(ssh: &str) -> Host {
    Host { ssh: ssh.to_string(), ..Default::default() }
}

fn serial(name: &str, device: &str) -> SerialChannel {
    SerialChannel {
        name: name.to_string(),
        device: device.to_string(),
        baud: 115200,
        power_sense_signal: None,
        power_button: false,
        host: None,
    }
}

fn netboot() -> NetbootChannel {
    NetbootChannel {
        interface: None,
        host_ip: None,
        tftp_root: None,
        boot_file: None,
        http_port: None,
        content_type: None,
        host: None,
    }
}

fn one_target(name: &str, t: Target) -> Lab {
    Lab { hosts: vec![], targets: vec![(name.to_string(), t)] }
}

fn err_of(lab: &Lab) -> String {
    validate(lab).unwrap_err().0
}

fn multihost() -> Lab {
    Lab {
        hosts: vec![("bench1".into(), host("u@bench1")), ("bench2".into(), host("u@bench2"))],
        targets: vec![(
            "fortune".into(),
            Target {
                host: Some("bench1".into()),
                description: Some("n".into()),
                netboot: Some(NetbootChannel { interface: Some("en0".into()), ..netboot() }),
                serial: vec![serial("console", "/dev/ttyUSB0")],
                video: Some(VideoChannel {
                    device: Some("/dev/video0".into()),
                    host: Some("bench2".into()),
                    ocr_mode: None,
                }),
                ..Default::default()
            },
        )],
    }
}

#[test]
fn is_local_via_sentinels() {
    let by_ssh = host("local");
    assert!(by_ssh.is_local("anything", None));
    let by_name = host("u@remote");
    assert!(by_name.is_local("local", None));
    assert!(!by_name.is_local("bench", None));
}

#[test]
fn is_local_via_hostname_fqdn() {
    let remote = Host { hostname: Some("nope.invalid.example".into()), ..host("u@x") };
    assert!(!remote.is_local("dev", Some("dev.example.org")));
    assert!(!remote.is_local("dev", None));
    let me = Host { hostname: Some("DEV.EXAMPLE.ORG".into()), ..host("u@x") };
    assert!(me.is_local("dev", Some("dev.example.org")));
}

#[test]
fn resolves_per_channel_host() {
    let rt = multihost().resolved_target("fortune").unwrap();
    let find = |kind: &str, name: &str| {
        rt.channels
            .iter()
            .find(|c| c.kind.as_str() == kind && c.name == name)
            .map(|c| c.host.clone())
            .unwrap()
    };
    assert_eq!(find("netboot", "netboot"), "bench1");
    assert_eq!(find("serial", "console"), "bench1");
    assert_eq!(find("video", "video"), "bench2");
    assert_eq!(rt.hosts(), vec!["bench1", "bench2"]);
}

#[test]
fn channels_on_host_is_the_inverse_index() {
    let lab = multihost();
    let on2 = lab.channels_on_host("bench2");
    assert_eq!(on2.len(), 1);
    assert_eq!(on2[0].0, "fortune");
    assert_eq!(on2[0].1.kind, ChannelKind::Video);
}

#[test]
fn resolves_adb_channel() {
    let lab = Lab {
        hosts: vec![("bench1".into(), host("u@bench1"))],
        targets: vec![(
            "pixel".into(),
            Target {
                host: Some("bench1".into()),
                adb: Some(paniolo::model::AdbChannel {
                    serial: Some("39021FDH200xyz".into()),
                    adb: None,
                    host: None,
                }),
                ..Default::default()
            },
        )],
    };
    let rt = lab.resolved_target("pixel").unwrap();
    let adb = rt.channels.iter().find(|c| c.kind == ChannelKind::Adb).expect("adb channel");
    assert_eq!(adb.host, "bench1");
    assert_eq!(adb.fields.iter().find(|(k, _)| *k == "serial").unwrap().1, "39021FDH200xyz");
    assert_eq!(channel_host(&rt, ChannelKind::Adb, None).unwrap(), "bench1");
}

#[test]
fn validate_rejects_unknown_host() {
    let e = err_of(&one_target("t", Target { host: Some("ghost".into()), ..Default::default() }));
    assert!(e.contains("unknown host 'ghost'"), "{e}");
}

#[test]
fn validate_rejects_unknown_usb_host() {
    let t = Target {
        usb: Some(UsbChannel { cmd: Some("ch9329 -d /dev/x".into()), host: Some("ghost".into()) }),
        ..Default::default()
    };
    let e = err_of(&one_target("t", t));
    assert!(e.contains("target 't' usb"), "{e}");
    assert!(e.contains("unknown host 'ghost'"), "{e}");
}

#[test]
fn validate_rejects_bad_sense() {
    let t = Target {
        serial: vec![SerialChannel { power_sense_signal: Some("bogus".into()), ..serial("c", "/d") }],
        ..Default::default()
    };
    let e = err_of(&one_target("t", t));
    assert!(e.contains("invalid power_sense_signal"), "{e}");
}

#[test]
fn validate_rejects_missing_ssh() {
    let lab = Lab { hosts: vec![("bench1".into(), host(""))], targets: vec![] };
    let e = err_of(&lab);
    assert!(e.contains("missing required 'ssh' field"), "{e}");
}

#[test]
fn validate_rejects_a_local_host_with_a_remote_ssh() {
    let lab = Lab { hosts: vec![("local".into(), host("u@bench1"))], targets: vec![] };
    let e = err_of(&lab);
    assert!(e.contains("host 'local' means this machine"), "{e}");
    let fine = Lab { hosts: vec![("local".into(), host("local"))], targets: vec![] };
    assert!(validate(&fine).is_ok());
}

#[test]
fn validate_rejects_empty_host_and_target_names() {
    let lab = Lab { hosts: vec![("".into(), host("u@b"))], targets: vec![] };
    let e = err_of(&lab);
    assert!(e.contains("host has an empty name"), "{e}");
    let e = err_of(&one_target("", Target::default()));
    assert!(e.contains("target has an empty name"), "{e}");
}

#[test]
fn validate_rejects_host_fields_that_look_like_options() {
    let cases = [
        ("ssh", host("-oProxyCommand=x")),
        ("identity", Host { identity: Some("-x".into()), ..host("u@b") }),
        ("control_path", Host { control_path: Some("-x".into()), ..host("u@b") }),
    ];
    for (field, h) in cases {
        let lab = Lab { hosts: vec![("b".into(), h)], targets: vec![] };
        let e = err_of(&lab);
        assert!(
            e.contains(&format!("{field} '-")) && e.contains("must not begin with '-'"),
            "{field}: {e}"
        );
    }
}

#[test]
fn validate_rejects_bad_host_ip_and_http_port() {
    let with_nb = |nb: NetbootChannel| one_target("t", Target { netboot: Some(nb), ..Default::default() });
    let e = err_of(&with_nb(NetbootChannel { host_ip: Some("192.168.99".into()), ..netboot() }));
    assert!(e.contains("host_ip '192.168.99' is not an IPv4"), "{e}");
    let e = err_of(&with_nb(NetbootChannel { host_ip: Some("fe80::1".into()), ..netboot() }));
    assert!(e.contains("not an IPv4"), "{e}");
    for bad in ["http", "0", "65536", "-1"] {
        let e = err_of(&with_nb(NetbootChannel { http_port: Some(bad.into()), ..netboot() }));
        assert!(e.contains("is not a port number"), "{bad}: {e}");
    }
    let ok = with_nb(NetbootChannel {
        host_ip: Some("192.168.99.1".into()),
        http_port: Some("8080".into()),
        ..netboot()
    });
    assert!(validate(&ok).is_ok());
}

#[test]
fn validate_rejects_unknown_ocr_mode() {
    let with_mode = |m: &str| {
        one_target(
            "t",
            Target {
                video: Some(VideoChannel { device: None, host: None, ocr_mode: Some(m.into()) }),
                ..Default::default()
            },
        )
    };
    let e = err_of(&with_mode("fast"));
    assert!(e.contains("invalid ocr_mode 'fast'"), "{e}");
    for ok in ["text", "gui"] {
        assert!(validate(&with_mode(ok)).is_ok());
    }
}

#[test]
fn validate_for_save_rejects_a_dangling_serial_interface() {
    let with = |si: &str, have: &str| {
        one_target(
            "t",
            Target {
                power: Some(PowerChannel {
                    cycle_cmd: None,
                    on_cmd: None,
                    off_cmd: None,
                    state_cmd: None,
                    serial_interface: Some(si.into()),
                    host: None,
                }),
                serial: vec![serial(have, "/dev/a")],
                ..Default::default()
            },
        )
    };
    let dangling = with("console", "other");
    assert!(validate(&dangling).is_ok());
    let e = validate_for_save(&dangling).unwrap_err().0;
    assert!(e.contains("power.serial_interface 'console' names no serial interface"), "{e}");
    assert!(e.contains("have: other"), "{e}");
    validate_for_save(&with("console", "console")).unwrap();
}

#[test]
fn channel_host_rejects_an_unknown_serial_interface() {
    let rt = multihost().resolved_target("fortune").unwrap();
    assert_eq!(channel_host(&rt, ChannelKind::Serial, Some("console")).unwrap(), "bench1");
    let e = channel_host(&rt, ChannelKind::Serial, Some("typo")).unwrap_err().0;
    assert!(e.contains("no serial interface 'typo' (have: console)"), "{e}");
    let lab = one_target("bare", Target::default());
    let rt = lab.resolved_target("bare").unwrap();
    assert_eq!(channel_host(&rt, ChannelKind::Serial, None).unwrap(), LOCAL);
}

#[test]
fn name_rule_accepts_plain_names_and_rejects_the_rest() {
    for ok in ["pi5", "lab-nuc-1", "bench_2", "v1.2", "a"] {
        assert!(is_valid_name(ok), "{ok}");
    }
    for bad in ["", ".", "..", "-x", "a b", "a/b", "a\tb", "é", "a:b", "x\0"] {
        assert!(!is_valid_name(bad), "{bad:?}");
    }
    let e = validate_name("target", "a b").unwrap_err();
    assert!(e.0.starts_with("invalid target name 'a b':"), "{}", e.0);
}

#[test]
fn find_target_and_host_report_positions() {
    let lab = multihost();
    assert_eq!(lab.find_target("fortune"), Some(0));
    assert_eq!(lab.find_target("nope"), None);
    assert_eq!(lab.find_host("bench2"), Some(1));
    assert_eq!(lab.target_names(), vec!["fortune"]);
    assert!(lab.resolved_target("nope").is_none());
}

#[test]
fn an_unknown_host_is_named_with_the_declared_ones_in_order() {
    let mut lab = one_target("t", Target { host: Some("ghost".into()), ..Default::default() });
    lab.hosts = vec![("zeta".into(), host("u@zeta")), ("alpha".into(), host("u@alpha"))];
    assert_eq!(err_of(&lab), "target 't' references unknown host 'ghost' (declared: alpha, local, zeta)");
}

#[test]
fn the_first_problem_is_the_one_reported() {
    let lab = Lab {
        hosts: vec![("ok".into(), host("u@ok")), ("dash".into(), host("-oProxyCommand=x"))],
        targets: vec![("".into(), Target::default())],
    };
    assert_eq!(err_of(&lab), "host 'dash': ssh '-oProxyCommand=x' must not begin with '-'");
    let t = Target {
        serial: vec![serial("c", "/d"), serial("c", "/e")],
        video: Some(VideoChannel { device: None, host: None, ocr_mode: Some("fancy".into()) }),
        ..Default::default()
    };
    assert_eq!(err_of(&one_target("t", t)), "target 't' video: invalid ocr_mode 'fancy' (valid: text, gui)");
    let dup = Target { serial: vec![serial("c", "/d"), serial("c", "/e")], ..Default::default() };
    assert_eq!(err_of(&one_target("t", dup)), "target 't': duplicate serial name 'c'");
}

#[test]
fn a_dangling_power_reference_lists_the_interfaces() {
    let t = Target {
        power: Some(PowerChannel {
            cycle_cmd: None,
            on_cmd: None,
            off_cmd: None,
            state_cmd: None,
            serial_interface: Some("console".into()),
            host: None,
        }),
        ..Default::default()
    };
    assert_eq!(
        validate_for_save(&one_target("pi", t)).unwrap_err().0,
        "target 'pi': power.serial_interface 'console' names no serial interface of this target (have: none); point it at one with `paniolo power set -t pi --serial-interface <name>`, or remove the power channel first"
    );
}

#[test]
fn a_lab_in_name_order_is_well_keyed() {
    let t = |n: &str| (n.to_string(), paniolo::model::Target::default());
    let ok = paniolo::model::Lab { hosts: vec![], targets: vec![t("a"), t("b"), t("c")] };
    assert!(ok.is_well_keyed());
    let unordered = paniolo::model::Lab { hosts: vec![], targets: vec![t("b"), t("a")] };
    assert!(!unordered.is_well_keyed());
    let repeated = paniolo::model::Lab { hosts: vec![], targets: vec![t("a"), t("a")] };
    assert!(!repeated.is_well_keyed());
}
