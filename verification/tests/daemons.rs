use paniolo::daemons::{
    binary_names, first_program_token, hook_helper_name, launched_from, libexec_dir, log_path,
    meta_differs, parse_ps_row, query_escape, runtime_base, runtime_rel, sanitize_component,
    start_failure, strays_in_ps, system_libexec_dir, BinMeta, Endpoint,
};

#[test]
fn hook_helper_name_takes_first_token_basename() {
    assert_eq!(hook_helper_name("zigplug -d /dev/x on 1").as_deref(), Some("zigplug"));
    assert_eq!(hook_helper_name("/usr/local/bin/script.sh --flag").as_deref(), Some("script.sh"));
    assert_eq!(hook_helper_name("  cambrionix state 4").as_deref(), Some("cambrionix"));
    assert_eq!(hook_helper_name(""), None);
    assert_eq!(hook_helper_name("   "), None);
}

#[test]
fn runtime_rel_singleton_vs_per_target() {
    assert_eq!(runtime_rel("zigplug", None), "zigplug");
    assert_eq!(runtime_rel("serialcap", Some("pi5")), "serialcap/pi5");
}

#[test]
fn runtime_rel_sanitizes_instance() {
    assert_eq!(runtime_rel("hdmicap", Some("a/b")), "hdmicap/a_b");
    assert_eq!(runtime_rel("hdmicap", Some("../x")), "hdmicap/.._x");
    assert_eq!(runtime_rel("hid", Some("")), "hid/_");
    assert_eq!(runtime_rel("hid", Some("nova-1.2")), "hid/nova-1.2");
}

#[test]
fn binary_names_adds_the_windows_suffix() {
    assert_eq!(binary_names("hdmicap", true), vec!["hdmicap.exe", "hdmicap"]);
    assert_eq!(binary_names("hdmicap", false), vec!["hdmicap"]);
    assert_eq!(binary_names("hdmicap.exe", true), vec!["hdmicap.exe"]);
}

#[test]
fn endpoint_urls_carry_the_token_only_where_a_browser_needs_it() {
    let ep = Endpoint { pid: 1, port: 5555, token: Some("t0k".into()) };
    assert_eq!(ep.base_url(), "http://127.0.0.1:5555");
    assert_eq!(ep.http_url("/"), "http://127.0.0.1:5555/?token=t0k");
    assert_eq!(ep.ws_url("/stream?interface=console"), "ws://127.0.0.1:5555/stream?interface=console&token=t0k");
    let old = Endpoint { token: None, ..ep.clone() };
    assert_eq!(old.ws_url("/hid"), "ws://127.0.0.1:5555/hid");
}

#[test]
fn endpoint_parses_the_token_and_tolerates_its_absence() {
    let ep = Endpoint::from_json(r#"{"pid":42,"port":8724,"token":"abc"}"#).unwrap();
    assert_eq!(ep, Endpoint { pid: 42, port: 8724, token: Some("abc".into()) });
    let old = Endpoint::from_json(r#"{"pid":42,"port":8724}"#).unwrap();
    assert_eq!(old.token, None);
    assert!(Endpoint::from_json(r#"{"pid":42}"#).is_none());
    assert!(Endpoint::from_json("not json").is_none());
}

#[test]
fn endpoint_from_fields_requires_fitting_pid_and_port_and_drops_an_empty_token() {
    assert!(Endpoint::from_fields(Some(1), Some(70000), None).is_none());
    assert!(Endpoint::from_fields(Some(1i64 << 40), Some(80), None).is_none());
    assert!(Endpoint::from_fields(None, Some(80), None).is_none());
    let e = Endpoint::from_fields(Some(-5), Some(65535), Some(String::new())).unwrap();
    assert_eq!(e, Endpoint { pid: -5, port: 65535, token: None });
}

#[test]
fn endpoint_authorization_is_a_bearer_header() {
    let ep = Endpoint { pid: 1, port: 1, token: Some("t0k".into()) };
    assert_eq!(ep.authorization().as_deref(), Some("Bearer t0k"));
    assert_eq!(Endpoint { token: None, ..ep }.authorization(), None);
}

#[test]
fn strays_match_the_program_path_not_the_arguments() {
    let dirs = vec!["/opt/paniolo/libexec/bin".to_string()];
    let ps = "\
  100     1 /opt/paniolo/libexec/bin/zigplug -d /dev/ttyUSB0 on 1
  101     1 cargo install --path zigplug --root /opt/paniolo/libexec
  102     1 ls -l /opt/paniolo/libexec/bin
  103     1 vim /opt/paniolo/libexec/bin/notes.txt
  104     1 /opt/paniolo/libexec/binx/other
  105     1 /opt/paniolo/libexec/bin/sub/deeper
";
    let pids: Vec<i32> = strays_in_ps(ps, &dirs, 999, &[]).into_iter().map(|(pid, _)| pid).collect();
    assert_eq!(pids, vec![100]);
}

#[test]
fn strays_exclude_us_known_pids_and_their_descendants() {
    let dirs = vec!["/usr/libexec/paniolo/bin".to_string()];
    let ps = "\
  200     1 sudo env NO_COLOR=1 /usr/libexec/paniolo/bin/netbootd --host-ip 192.168.99.1
  201   200 /usr/libexec/paniolo/bin/netbootd --host-ip 192.168.99.1
  202   201 /usr/libexec/paniolo/bin/bpf-helper
  300     1 /usr/libexec/paniolo/bin/hdmicap daemon --device /dev/video0
  301   300 /usr/libexec/paniolo/bin/linuxocr
  400     1 /usr/libexec/paniolo/bin/zigplug -d /dev/ttyUSB1 on 1
  500     1 /usr/libexec/paniolo/bin/serialcap stop
";
    let strays = strays_in_ps(ps, &dirs, 500, &[200, 300]);
    assert_eq!(strays, vec![(400, "/usr/libexec/paniolo/bin/zigplug -d /dev/ttyUSB1 on 1".to_string())]);
}

#[test]
fn exclusion_follows_a_chain_listed_child_before_parent() {
    let dirs = vec!["/h".to_string()];
    // 12 is a grandchild of 10, listed before its parent 11.
    let ps = "12 11 /h/a\n11 10 /h/b\n10 1 /h/c\n13 1 /h/d\n";
    let pids: Vec<i32> = strays_in_ps(ps, &dirs, 0, &[10]).into_iter().map(|(p, _)| p).collect();
    assert_eq!(pids, vec![13]);
}

#[test]
fn ps_rows_take_right_aligned_columns_and_skip_garbage() {
    assert_eq!(parse_ps_row("   42     1   /bin/x  -y  "), Some((42, 1, "/bin/x  -y".to_string())));
    assert_eq!(parse_ps_row("PID PPID ARGS"), None);
    assert_eq!(parse_ps_row("42"), None);
    assert_eq!(parse_ps_row("-3 +4 z"), Some((-3, 4, "z".to_string())));
}

#[test]
fn launched_from_reads_only_the_programs_directory() {
    let dirs = vec!["/h/bin".to_string(), "/".to_string()];
    assert!(launched_from("/h/bin/x --flag /elsewhere/y", &dirs));
    assert!(launched_from("/init", &dirs));
    assert!(!launched_from("x /h/bin/x", &dirs));
    assert!(!launched_from("", &dirs));
}

#[test]
fn first_program_token_skips_leading_assignments() {
    assert_eq!(first_program_token("AMT_PASSWORD=hunter2 /opt/bin/amt-tool cycle").as_deref(), Some("/opt/bin/amt-tool"));
    assert_eq!(first_program_token("A=1 B=2 zigplug on").as_deref(), Some("zigplug"));
    assert_eq!(first_program_token("=x prog").as_deref(), Some("=x"));
    assert_eq!(first_program_token("1A=x prog").as_deref(), Some("1A=x"));
    assert_eq!(first_program_token("A=1"), None);
    assert_eq!(first_program_token(""), None);
}

#[test]
fn sanitize_keeps_safe_characters_only() {
    assert_eq!(sanitize_component("a b/c.d-e_f"), "a_b_c.d-e_f");
    assert_eq!(sanitize_component(""), "_");
    assert_eq!(sanitize_component("é"), "_");
}

#[test]
fn runtime_paths_hang_off_the_per_user_base() {
    assert_eq!(runtime_base("/tmp", 501), "/tmp/paniolo-501");
    assert_eq!(runtime_base("/tmp/", 0), "/tmp/paniolo-0");
    assert_eq!(log_path("/tmp/paniolo-501", "serialcap", Some("pi5")), "/tmp/paniolo-501/serialcap/pi5/daemon.log");
    assert_eq!(libexec_dir(Some("/home/u")).as_deref(), Some("/home/u/.local/libexec/paniolo/bin"));
    assert_eq!(libexec_dir(None), None);
    assert_eq!(system_libexec_dir(), "/usr/libexec/paniolo/bin");
}

#[test]
fn start_failure_quotes_the_last_five_log_lines() {
    assert_eq!(start_failure("hdmicap", 10, ""), "hdmicap daemon did not start within 10 s (no stderr captured)");
    let log = "1\n2\n3\n4\n5\n6\n7\n";
    assert_eq!(
        start_failure("hdmicap", 3, log),
        "hdmicap daemon did not start within 3 s; last stderr:\n  3\n  4\n  5\n  6\n  7"
    );
}

#[test]
fn meta_differs_on_path_mtime_size_or_a_vanished_binary() {
    let meta = BinMeta { bin: "x".into(), path: "/p/x".into(), mtime_ns: 5, size: 9 };
    assert!(!meta_differs(&meta, "/p/x", Some((5, 9))));
    assert!(meta_differs(&meta, "/q/x", Some((5, 9))));
    assert!(meta_differs(&meta, "/p/x", Some((6, 9))));
    assert!(meta_differs(&meta, "/p/x", Some((5, 10))));
    assert!(meta_differs(&meta, "/p/x", None));
}

#[test]
fn query_escape_percent_encodes_reserved_and_non_ascii_bytes() {
    assert_eq!(query_escape("a b&c"), "a%20b%26c");
    assert_eq!(query_escape("Az09-._~"), "Az09-._~");
    assert_eq!(query_escape("é="), "%C3%A9%3D");
    assert_eq!(query_escape("€"), "%E2%82%AC");
    assert_eq!(query_escape("😀"), "%F0%9F%98%80");
}
