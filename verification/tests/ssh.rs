use paniolo::model::Host;
use paniolo::ssh::{
    base_args, collect_forwarded, expand_tilde, is_env_name, join_path, remote_command,
    sftp_put_script, sftp_quote, sftp_rm_script, shell_quote, ssh_args, stdin_prelude,
    transfer_args, EnvLookup,
};

fn argv(parts: &[&str]) -> Vec<String> {
    parts.iter().map(|s| s.to_string()).collect()
}

#[test]
fn shell_quote_leaves_safe_tokens_bare() {
    assert_eq!(shell_quote("/dev/ttyUSB0"), "/dev/ttyUSB0");
    assert_eq!(shell_quote("user@host"), "user@host");
}

#[test]
fn shell_quote_wraps_specials() {
    assert_eq!(shell_quote("a b"), "'a b'");
    assert_eq!(shell_quote("it's"), r"'it'\''s'");
    assert_eq!(shell_quote(""), "''");
}

#[test]
fn remote_command_without_env_is_the_quoted_argv() {
    assert_eq!(
        remote_command(&argv(&["paniolo", "serial", "send", "a b"]), &[]),
        "paniolo serial send 'a b'"
    );
}

#[test]
fn remote_command_with_env_wraps_in_the_stdin_prelude_without_the_value() {
    let env = vec![("AMT_PASSWORD".to_string(), "hunter2".to_string())];
    let cmd = remote_command(&argv(&["paniolo", "power-state", "nuc"]), &env);
    assert_eq!(
        cmd,
        "sh -c 'IFS= read -r AMT_PASSWORD && export AMT_PASSWORD && exec \"$@\"' \
         sh paniolo power-state nuc"
    );
    assert!(!cmd.contains("hunter2"), "{cmd}");
}

#[test]
fn stdin_prelude_reads_variables_in_order() {
    let p = stdin_prelude(&argv(&["x"]), &["FIRST", "SECOND"]);
    assert_eq!(
        p,
        "sh -c 'IFS= read -r FIRST && export FIRST && IFS= read -r SECOND && \
         export SECOND && exec \"$@\"' sh x"
    );
}

#[test]
fn only_shell_variable_names_reach_the_prelude() {
    assert!(is_env_name("AMT_PASSWORD"));
    assert!(is_env_name("_x1"));
    assert!(!is_env_name("A-B"));
    assert!(!is_env_name("1A"));
    assert!(!is_env_name(""));
}

#[test]
fn collect_forwarded_takes_set_names_in_order_and_rejects_newlines() {
    let got = collect_forwarded(
        &["A", "UNSET", "B"],
        &vec![EnvLookup::Value("first".into()), EnvLookup::Unset, EnvLookup::Value("second".into())],
    )
    .unwrap();
    assert_eq!(
        got,
        vec![("A".to_string(), "first".to_string()), ("B".to_string(), "second".to_string())]
    );
    let err = collect_forwarded(&["NL"], &vec![EnvLookup::Value("two\nlines".into())]).unwrap_err();
    assert!(err.contains("NL contains a newline"), "{err}");
    assert!(collect_forwarded(&["UNSET"], &vec![EnvLookup::Unset]).unwrap().is_empty());
    let err = collect_forwarded(&["X"], &vec![EnvLookup::NotUnicode]).unwrap_err();
    assert!(err.contains("X is not valid UTF-8"), "{err}");
}

#[test]
fn ssh_command_terminates_options_before_the_destination() {
    let host = Host { ssh: "-oProxyCommand=evil".into(), ..Default::default() };
    let args = ssh_args(&host, false, Some("/home/me"), "/tmp/paniolo-1000/ssh");
    let dashdash = args.iter().position(|a| a == "--").expect("a `--`");
    assert_eq!(args[dashdash + 1], "-oProxyCommand=evil");
    assert_eq!(args.len(), dashdash + 2, "destination is last: {args:?}");
    let args = ssh_args(&host, true, Some("/home/me"), "/tmp/paniolo-1000/ssh");
    let t = args.iter().position(|a| a == "-t").expect("-t");
    let dashdash = args.iter().position(|a| a == "--").unwrap();
    assert!(t < dashdash, "{args:?}");
}

#[test]
fn base_args_include_batch_and_control_master() {
    let host = Host { ssh: "u@bench1".into(), identity: Some("~/.ssh/id".into()), ..Default::default() };
    let v = base_args(&host, false, true, Some("/home/me"), "/tmp/c");
    assert_eq!(v[0], "ssh");
    let a = v.join(" ");
    assert!(a.contains("BatchMode=yes"), "{a}");
    assert!(a.contains("ControlMaster=auto"), "{a}");
    assert!(a.contains("IdentitiesOnly=yes"), "{a}");
    assert!(a.contains("/home/me/.ssh/id"), "{a}");
    assert!(a.contains("ControlPath=/tmp/c/cm-%C"), "{a}");
    assert!(!base_args(&host, true, true, Some("/home/me"), "/tmp/c").join(" ").contains("BatchMode"));
    let standalone = base_args(&host, false, false, Some("/home/me"), "/tmp/c").join(" ");
    assert!(standalone.contains("ControlMaster=no") && standalone.contains("ControlPath=none"), "{standalone}");
}

#[test]
fn sftp_quote_preserves_windows_paths() {
    assert_eq!(sftp_quote(r"C:\Users\curti\.paniolo-lab-1.toml"), r#""C:\\Users\\curti\\.paniolo-lab-1.toml""#);
}

#[test]
fn sftp_quote_escapes_quotes_and_spaces() {
    assert_eq!(sftp_quote("a b.toml"), r#""a b.toml""#);
    assert_eq!(sftp_quote(r#"od"d.toml"#), r#""od\"d.toml""#);
}

#[test]
fn transfer_args_carry_identity_and_multiplexing() {
    let host = Host { ssh: "u@bench1".into(), identity: Some("~/.ssh/id".into()), ..Default::default() };
    let a = transfer_args(&host, Some("/home/me"), "/tmp/c").join(" ");
    assert!(a.contains("BatchMode=yes"), "{a}");
    assert!(a.contains("IdentitiesOnly=yes"), "{a}");
    assert!(a.contains("ControlMaster=auto"), "{a}");
}

#[test]
fn sftp_scripts_and_paths() {
    assert_eq!(sftp_put_script("/tmp/a b", ".x.toml"), "put \"/tmp/a b\" \".x.toml\"\n");
    assert_eq!(sftp_rm_script(".x.toml"), "rm \".x.toml\"\n");
    assert_eq!(join_path("/a", "b"), "/a/b");
    assert_eq!(expand_tilde("~/x", Some("/home/me")), "/home/me/x");
    assert_eq!(expand_tilde("/abs", Some("/home/me")), "/abs");
}

#[test]
fn a_quoted_token_is_one_shell_word() {
    // Concrete cases of the reading law: the quoted forms a shell reads back.
    assert_eq!(shell_quote("it's"), "'it'\\''s'");
    assert_eq!(shell_quote(""), "''");
    assert_eq!(shell_quote("a b"), "'a b'");
    assert_eq!(shell_quote("/dev/ttyUSB0"), "/dev/ttyUSB0");
}
