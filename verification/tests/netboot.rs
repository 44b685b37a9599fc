use paniolo::netboot::{stop_start, stop_step, StopAction, StopPhase};
use paniolo::platform::Signal;
use paniolo::netboot::{
    interface_conflict, log_tail, netbootd_command, recorded_pids, should_signal, start_check,
    stop_failure, BootOptions, NetbootRecord,
};

fn running(target: &str, interface: &str, pid: i32) -> (String, NetbootRecord) {
    (
        target.to_string(),
        NetbootRecord {
            target: target.to_string(),
            dhcp_pid: pid,
            tftp_pid: pid,
            interface: interface.to_string(),
            tftp_root: "/srv/tftp".to_string(),
            engine: "rust".to_string(),
        },
    )
}

#[test]
fn another_target_on_the_same_interface_conflicts() {
    let live = vec![running("pi5", "en7", 4242), running("nova", "en9", 4343)];
    let hit = interface_conflict("nuc", "en7", &live).expect("en7 is taken");
    assert_eq!(hit.0, "pi5");
    assert_eq!(hit.1.dhcp_pid, 4242);
}

#[test]
fn a_free_interface_or_our_own_entry_does_not_conflict() {
    let live = vec![running("pi5", "en7", 4242)];
    assert!(interface_conflict("nuc", "en8", &live).is_none(), "other adapter");
    assert!(interface_conflict("pi5", "en7", &live).is_none());
    assert!(interface_conflict("nuc", "en7", &vec![]).is_none(), "nothing running");
}

#[test]
fn log_tail_quotes_the_last_lines_only() {
    let all: Vec<String> = (1..=30).map(|i| format!("line {i}")).collect();
    let text = all.join("\n") + "\n";
    let tail = log_tail(&text, 20);
    let got: Vec<&str> = tail.lines().collect();
    assert_eq!(got.len(), 20);
    assert_eq!(got[0], "line 11");
    assert_eq!(got[19], "line 30");
    assert_eq!(log_tail(&text, 100).lines().count(), 30);
    assert_eq!(log_tail("", 20), "");
}

#[test]
fn stop_signals_only_a_live_netbootd() {
    assert!(should_signal(true, true));
    assert!(!should_signal(true, false), "a recycled pid running another program must not be signalled");
    assert!(!should_signal(false, true), "a dead pid needs nothing");
    assert!(!should_signal(false, false));
}

#[test]
fn start_refuses_in_order() {
    assert_eq!(
        start_check("pi5", "en7", "192.168.99.1", "/srv", true, true, false, None).unwrap_err(),
        "netboot already running for 'pi5'"
    );
    assert!(start_check("pi5", "en7", "192.168.99.1", "", false, true, false, None)
        .unwrap_err()
        .starts_with("no tftp_root configured"));
    assert_eq!(
        start_check("pi5", "en7", "192.168.99.1", "/srv", false, false, false, None).unwrap_err(),
        "TFTP root does not exist: /srv"
    );
    assert!(start_check("pi5", "en0", "192.168.99.1", "/srv", false, true, true, None)
        .unwrap_err()
        .starts_with("refusing to start netboot on 'en0'"));
    let e = start_check("nuc", "en7", "192.168.99.1", "/srv", false, true, false, Some(("pi5", 4242)))
        .unwrap_err();
    assert!(e.starts_with("netboot for 'pi5' is already running on en7 (pid 4242)"), "{e}");
    assert!(start_check("nuc", "en8", "192.168.99.1", "/srv", false, true, false, None).is_ok());
}

#[test]
fn netbootd_runs_under_sudo_env_with_its_flags() {
    let opts = BootOptions { http_port: Some("8080".into()), ..Default::default() };
    assert_eq!(
        netbootd_command(true, "/opt/netbootd", "192.168.99.1", "/srv", "en7", &opts),
        vec![
            "sudo", "env", "NO_COLOR=1", "/opt/netbootd", "--host-ip", "192.168.99.1",
            "--tftp-root", "/srv", "--interface", "en7", "--http-port", "8080"
        ]
    );
    assert_eq!(
        netbootd_command(false, "netbootd", "h", "r", "i", &BootOptions::default()),
        vec!["netbootd", "--host-ip", "h", "--tftp-root", "r", "--interface", "i"]
    );
}

#[test]
fn pids_and_the_survivor_message() {
    assert_eq!(recorded_pids(5, 5), vec![5]);
    assert_eq!(recorded_pids(5, 6), vec![5, 6]);
    assert_eq!(
        stop_failure(&vec![5, 6], "en7"),
        "netbootd (pid 5, 6) is still running after SIGKILL; leaving its state file and interface en7 in place"
    );
}

#[test]
fn stopping_terms_then_kills_then_judges() {
    let s = stop_start(10, 11);
    assert_eq!(s.pids, vec![10, 11]);
    let (s, a) = stop_step(s, &vec![true, false], "en7");
    assert!(matches!(a, StopAction::Signal(ref p, Signal::Term, 3) if *p == vec![10]));
    assert_eq!(s.phase, StopPhase::Kill);
    let (s, a) = stop_step(s, &vec![true], "en7");
    assert!(matches!(a, StopAction::Signal(ref p, Signal::Kill, 2) if *p == vec![10]));
    let (_, a) = stop_step(s, &vec![true], "en7");
    match a {
        StopAction::Finish(Err(m)) => assert_eq!(
            m,
            "netbootd (pid 10) is still running after SIGKILL; leaving its state file and interface en7 in place"
        ),
        _ => panic!("a survivor fails the stop"),
    }
    let s = stop_start(5, 5);
    assert_eq!(s.pids, vec![5]);
    let (s, _) = stop_step(s, &vec![true], "en7");
    let (s, _) = stop_step(s, &vec![false], "en7");
    let (s, a) = stop_step(s, &vec![], "en7");
    assert!(matches!(a, StopAction::Finish(Ok(()))));
    assert_eq!(s.phase, StopPhase::Done);
}

fn lab_with_netboot(nb: Option<paniolo::model::NetbootChannel>, host: Option<&str>) -> paniolo::model::Lab {
    let t = paniolo::model::Target { host: host.map(|h| h.to_string()), netboot: nb, ..Default::default() };
    paniolo::model::Lab { hosts: vec![], targets: vec![("pi".to_string(), t)] }
}

fn netboot_channel(interface: Option<&str>, host_ip: Option<&str>) -> paniolo::model::NetbootChannel {
    paniolo::model::NetbootChannel {
        interface: interface.map(|s| s.to_string()),
        host_ip: host_ip.map(|s| s.to_string()),
        tftp_root: Some("/srv/tftp".to_string()),
        boot_file: None,
        http_port: Some("8080".to_string()),
        content_type: None,
        host: None,
    }
}

#[test]
fn the_local_netboot_channel_is_read_with_its_defaults() {
    let lab = lab_with_netboot(Some(netboot_channel(Some("en7"), None)), None);
    let nb = paniolo::netboot::local_netboot(&lab, "pi").unwrap();
    assert_eq!(nb.interface, "en7");
    assert_eq!(nb.host_ip, "192.168.99.1");
    assert_eq!(nb.tftp_root.as_deref(), Some("/srv/tftp"));
    assert_eq!(nb.opts.http_port.as_deref(), Some("8080"));
    let lab = lab_with_netboot(Some(netboot_channel(Some("en7"), Some("10.0.0.1"))), None);
    assert_eq!(paniolo::netboot::local_netboot(&lab, "pi").unwrap().host_ip, "10.0.0.1");
}

#[test]
fn the_local_netboot_channel_is_refused_when_missing_remote_or_unset() {
    let lab = lab_with_netboot(None, None);
    assert_eq!(
        paniolo::netboot::local_netboot(&lab, "pi").err().unwrap().message,
        "target 'pi' has no netboot channel (paniolo netboot set -t pi ...)"
    );
    assert_eq!(
        paniolo::netboot::local_netboot(&lab, "nope").err().unwrap().message,
        "target 'nope' not found in lab"
    );
    let lab = lab_with_netboot(Some(netboot_channel(Some("en7"), None)), Some("bench1"));
    assert_eq!(
        paniolo::netboot::local_netboot(&lab, "pi").err().unwrap().message,
        "netboot channel for 'pi' is not on this host"
    );
    let lab = lab_with_netboot(Some(netboot_channel(None, None)), None);
    assert_eq!(
        paniolo::netboot::local_netboot(&lab, "pi").err().unwrap().message,
        "netboot channel for 'pi' has no interface set"
    );
}
