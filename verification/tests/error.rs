use paniolo::error::{
    classify, daemon_request_failed, hook_failed, json_flag_given, json_requested, printable,
    shell_code, usage_message, Cause, Kind, PanioloError, RequestFailure, BODY_LIMIT,
    EXIT_STATUS_HELP,
};

#[test]
fn codes_follow_the_bands() {
    for k in Kind::ALL {
        let c = k.exit_code();
        assert!((2..125).contains(&c), "{k:?} -> {c}");
    }
}

#[test]
fn help_lists_exactly_the_emitted_codes() {
    let listed: Vec<(i32, Option<&str>)> = EXIT_STATUS_HELP
        .lines()
        .filter_map(|l| {
            let mut words = l.split_whitespace();
            let code = words.next()?.parse().ok()?;
            Some((code, words.next()))
        })
        .collect();
    let mut expected: Vec<(i32, Option<&str>)> = vec![(0, Some("success")), (1, Some("negative"))];
    expected.extend(Kind::ALL.iter().map(|k| (k.exit_code(), Some(k.as_str()))));
    assert_eq!(listed, expected);
}

#[test]
fn classify_finds_a_wrapped_error_and_keeps_the_chain() {
    let inner = PanioloError::not_configured("target 'x' not found in lab").target("x");
    let e = classify(
        "power cycle: target 'x' not found in lab",
        &vec![Cause::Other, Cause::Classified(inner)],
    );
    assert_eq!(e.kind, Kind::NotConfigured);
    assert_eq!(e.target.as_deref(), Some("x"));
    assert_eq!(e.message, "power cycle: target 'x' not found in lab");
}

#[test]
fn lab_error_is_not_configured_and_anything_else_internal() {
    assert_eq!(classify("bad", &vec![Cause::Lab]).kind, Kind::NotConfigured);
    assert_eq!(classify("boom", &vec![Cause::Other]).kind, Kind::Internal);
    assert_eq!(classify("boom", &vec![]).kind, Kind::Internal);
}

#[test]
fn shell_code_reports_signals_as_128_plus_n() {
    assert_eq!(shell_code(Some(7), None), 7);
    assert_eq!(shell_code(None, Some(15)), 143, "SIGTERM");
    assert_eq!(shell_code(None, None), 1);
}

#[test]
fn hook_failed_classifies_by_status() {
    let e = hook_failed(Some(7), false, "m");
    assert_eq!((e.kind, e.child_exit), (Kind::HelperFailed, Some(7)));
    let e = hook_failed(Some(127), false, "m");
    assert_eq!((e.kind, e.child_exit), (Kind::NotConfigured, Some(127)));
    let e = hook_failed(None, false, "m");
    assert_eq!((e.kind, e.child_exit), (Kind::HelperFailed, None));
    let e = hook_failed(Some(200), false, "m");
    assert_eq!((e.kind, e.child_exit), (Kind::HelperFailed, Some(200)));
    let e = hook_failed(Some(9009), true, "m");
    assert_eq!((e.kind, e.child_exit), (Kind::NotConfigured, Some(9009)));
    let e = hook_failed(Some(9009), false, "m");
    assert_eq!(e.kind, Kind::HelperFailed);
}

#[test]
fn a_refused_daemon_request_is_daemon_down() {
    let f = RequestFailure::Transport {
        connection_failed: true,
        io: false,
        timed_out: false,
        text: "Connection refused".into(),
    };
    let pe = daemon_request_failed("serialcap", "serialcap /input", f);
    assert_eq!(pe.kind, Kind::DaemonDown, "{}", pe.message);
    assert_eq!(pe.channel.as_deref(), Some("serial"));
    assert_eq!(pe.message, "serialcap /input failed: Connection refused");
}

#[test]
fn a_daemon_that_never_answers_is_a_timeout() {
    let f = RequestFailure::Transport {
        connection_failed: false,
        io: true,
        timed_out: true,
        text: "timed out".into(),
    };
    let pe = daemon_request_failed("hdmicap", "OCR", f);
    assert_eq!(pe.kind, Kind::Timeout, "{}", pe.message);
    assert_eq!(pe.channel.as_deref(), Some("video"));
}

#[test]
fn a_daemon_error_status_is_helper_failed_with_its_reason() {
    let f = RequestFailure::Status { code: 503, body: "no video signal".into() };
    let pe = daemon_request_failed("hdmicap", "OCR", f);
    assert_eq!(pe.kind, Kind::HelperFailed);
    assert_eq!(pe.message, "OCR failed: no video signal");
    let f = RequestFailure::Status { code: 503, body: "  \r\n".into() };
    let pe = daemon_request_failed("hdmicap", "OCR", f);
    assert_eq!(pe.message, "OCR failed: daemon returned status 503");
}

#[test]
fn daemon_text_loses_control_characters_and_is_capped() {
    assert_eq!(printable("no \x1b[31msignal\r\n"), "no  [31msignal  ");
    let long = "x".repeat(BODY_LIMIT + 10);
    assert_eq!(printable(&long).chars().count(), BODY_LIMIT + 1);
}

#[test]
fn the_json_request_comes_from_the_flag_or_the_variable() {
    let a = |v: &[&str]| v.iter().map(|s| s.to_string()).collect::<Vec<String>>();
    assert!(json_flag_given(&a(&["paniolo", "--json-errors", "serial", "log"])));
    assert!(!json_flag_given(&a(&["paniolo", "adb", "run", "--", "--json-errors"])));
    assert!(!json_flag_given(&a(&["--json-errors"])));
    assert!(json_requested(true, None));
    assert!(json_requested(false, Some("1")));
    assert!(!json_requested(false, Some("yes")));
}

#[test]
fn usage_message_takes_the_first_line_and_names_missing_arguments() {
    assert_eq!(
        usage_message("error: unrecognized subcommand 'frob'\n\nUsage: paniolo <COMMAND>\n"),
        "unrecognized subcommand 'frob'"
    );
    assert_eq!(
        usage_message(
            "error: the following required arguments were not provided:\n  <TARGET>\n  <FILE>\n\nUsage: paniolo flash <TARGET> <FILE>\n"
        ),
        "the following required arguments were not provided: <TARGET>, <FILE>"
    );
}

#[test]
fn json_has_every_field() {
    let e = paniolo::error::PanioloError::not_configured("m").target("t");
    let v: serde_json::Value = serde_json::from_str(&paniolo::error::to_json(&e)).unwrap();
    let o = &v["error"];
    assert_eq!(o["kind"], "not_configured");
    assert_eq!(o["code"], 3);
    assert_eq!(o["target"], "t");
    for f in ["channel", "host", "child_exit"] {
        assert!(o[f].is_null(), "{f}");
    }
}

#[test]
fn the_json_error_object_is_one_line_with_its_values() {
    let e = paniolo::error::PanioloError::not_configured("no \"x\"").channel("power").child_exit(Some(7));
    let line = paniolo::error::to_json(&e);
    assert!(!line.contains('\n'), "{line}");
    let v: serde_json::Value = serde_json::from_str(&line).unwrap();
    assert_eq!(v["error"]["message"], "no \"x\"");
    assert_eq!(v["error"]["channel"], "power");
    assert_eq!(v["error"]["child_exit"], 7);
    assert!(v["error"]["target"].is_null());
    assert_eq!(v.as_object().unwrap().len(), 1);
    assert_eq!(v["error"].as_object().unwrap().len(), 7);
}

#[test]
fn ssh_255_is_an_unreachable_host() {
    let e = paniolo::error::transport_outcome("nuc", 255).unwrap_err();
    assert_eq!(e.kind, Kind::Unreachable);
    assert_eq!(e.host.as_deref(), Some("nuc"));
    assert_eq!(e.message, paniolo::error::ssh_255_message("nuc"));
    assert_eq!(paniolo::error::transport_outcome("nuc", 3).unwrap(), 3);
    assert_eq!(paniolo::error::transport_outcome("nuc", 0).unwrap(), 0);
}
