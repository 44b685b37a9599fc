use paniolo::state::{
    cmdline_text, default_engine, liveness_checks, named_child_alive, netboot_log_path,
    netboot_state_path, state_dir,
};

#[test]
fn state_lives_under_the_home_share_dir() {
    assert_eq!(state_dir(Some("/home/me")), "/home/me/.local/share/paniolo");
    assert_eq!(netboot_state_path("/s", "pi5"), "/s/pi5/netboot.json");
    assert_eq!(netboot_log_path("/s", "pi5"), "/s/pi5/netboot.log");
}

#[test]
fn a_recorded_pid_counts_only_while_it_runs_the_named_program() {
    assert!(named_child_alive(true, "sudo netbootd --interface en7", "netbootd"));
    assert!(!named_child_alive(true, "/usr/bin/vim", "netbootd"));
    assert!(!named_child_alive(false, "netbootd", "netbootd"));
    assert_eq!(cmdline_text("python3\0-m\0paniolo._dhcp\0"), "python3 -m paniolo._dhcp");
}

#[test]
fn each_engine_checks_its_own_children() {
    assert_eq!(liveness_checks("rust", 5, 6), vec![(5, "netbootd")]);
    assert_eq!(liveness_checks("python", 5, 6), vec![(5, "paniolo._dhcp"), (6, "paniolo._tftp")]);
    assert_eq!(default_engine(), "python");
}

#[test]
fn a_netboot_runs_only_when_every_check_passes() {
    assert!(!paniolo::state::netboot_running(None, &vec![]));
    assert!(paniolo::state::netboot_running(Some(("rust", 10, 11)), &vec![true]));
    assert!(!paniolo::state::netboot_running(Some(("rust", 10, 11)), &vec![false]));
    assert!(paniolo::state::netboot_running(Some(("python", 10, 11)), &vec![true, true]));
    assert!(!paniolo::state::netboot_running(Some(("python", 10, 11)), &vec![true, false]));
    assert!(!paniolo::state::netboot_running(Some(("python", 10, 11)), &vec![false, true]));
}
