use paniolo::netif::{
    failure_text, hardware_ports, ipv4_addrs, is_default_route_interface, link_mode,
    linux_skipped, mac_candidate, network_service, parse_brief_addrs, parse_ifconfig_addrs,
    parse_neighbours, refuse_primary_interface, route_device, route_interface_mac, FFX_HOST_LL,
};

#[test]
fn the_default_route_interface_is_primary() {
    assert!(is_default_route_interface("en0", Some("en0")));
    assert!(!is_default_route_interface("en14", Some("en0")));
    assert!(!is_default_route_interface("en0", None));
}

#[test]
fn every_mode_change_refuses_the_primary_interface() {
    for what in ["mode netboot", "mode link", "mode ffx", "mode off", "down-hard"] {
        let msg = refuse_primary_interface(what, "en0", Some("en0"))
            .expect_err("the default-route interface must be refused");
        assert!(msg.starts_with(&format!("refusing netif {what} on 'en0'")), "{msg}");
        assert!(msg.contains("system default route"), "{msg}");
    }
}

#[test]
fn a_dedicated_adapter_passes_the_guard() {
    assert!(refuse_primary_interface("mode link", "en14", Some("en0")).is_ok());
    assert!(refuse_primary_interface("down-hard", "en14", None).is_ok());
}

#[test]
fn ipv4_addrs_parses_the_one_line_ip_listing() {
    let sample = "\
3: eth1    inet 192.0.2.10/24 brd 192.0.2.255 scope global eth1\\       valid_lft forever preferred_lft forever
3: eth1    inet 198.51.100.7/16 brd 198.51.255.255 scope global secondary dynamic eth1\\       valid_lft 3242sec preferred_lft 3242sec
";
    assert_eq!(ipv4_addrs(sample), vec!["192.0.2.10/24", "198.51.100.7/16"]);
    assert!(ipv4_addrs("").is_empty());
    assert!(ipv4_addrs("3: eth1    <BROADCAST,MULTICAST,UP,LOWER_UP> mtu 1500\n").is_empty());
}

#[test]
fn brief_listing_splits_v4_from_v6() {
    let (v4, v6) = parse_brief_addrs("eth1 UP 192.168.99.1/24 fe80::1/64\n");
    assert_eq!(v4, vec!["192.168.99.1/24"]);
    assert_eq!(v6, vec!["fe80::1/64"]);
}

#[test]
fn ifconfig_listing_drops_the_zone_suffix() {
    let text = "en7: flags=8863<UP> mtu 1500\n\tinet 192.168.99.1 netmask 0xffffff00 broadcast 192.168.99.255\n\tinet6 fe80::1%en7 prefixlen 64 scopeid 0x4\n";
    let (v4, v6) = parse_ifconfig_addrs(text);
    assert_eq!(v4, vec!["192.168.99.1"]);
    assert_eq!(v6, vec!["fe80::1"]);
}

#[test]
fn neighbours_are_link_local_and_not_us() {
    let text = format!("fe80::9 lladdr aa:bb REACHABLE\n{FFX_HOST_LL} lladdr cc STALE\n2001:db8::1 lladdr dd STALE\n");
    assert_eq!(parse_neighbours(&text), vec!["fe80::9"]);
}

#[test]
fn default_routes_name_their_device() {
    assert_eq!(route_device("default via 10.0.0.1 dev wlan0 proto dhcp\n").as_deref(), Some("wlan0"));
    assert_eq!(route_device(""), None);
    assert_eq!(
        route_interface_mac("   route to: default\n  gateway: 10.0.0.1\n  interface: en0\n").as_deref(),
        Some("en0")
    );
}

#[test]
fn hardware_ports_pair_ports_with_devices() {
    let text = "Hardware Port: Wi-Fi\nDevice: en0\nEthernet Address: a\n\nHardware Port: AX88179A\nDevice: en7\n";
    assert_eq!(
        hardware_ports(text),
        vec![("Wi-Fi".to_string(), "en0".to_string()), ("AX88179A".to_string(), "en7".to_string())]
    );
    assert_eq!(network_service(text, "en7").as_deref(), Some("AX88179A"));
    assert_eq!(network_service(text, "en9"), None);
}

#[test]
fn candidate_filters_skip_builtin_and_virtual_ports() {
    assert!(mac_candidate("AX88179A", "en7", Some("en0")));
    assert!(!mac_candidate("Wi-Fi", "en1", Some("en0")));
    assert!(!mac_candidate("USB 10/100/1000 LAN", "en0", Some("en0")));
    assert!(linux_skipped("docker0", None));
    assert!(linux_skipped("eth0", Some("eth0")));
    assert!(!linux_skipped("enx00e04c", Some("eth0")));
}

#[test]
fn failures_prefer_stderr_and_modes_follow_addresses() {
    assert_eq!(failure_text("  boom \n", "out"), "boom");
    assert_eq!(failure_text(" ", " ** Error: x\n"), "** Error: x");
    let none: Vec<String> = vec![];
    assert_eq!(link_mode(true, &none, &none, "192.168.99.1"), "netboot");
    assert_eq!(link_mode(false, &vec!["192.168.99.1/24".into()], &none, "192.168.99.1"), "link");
    assert_eq!(link_mode(false, &none, &vec![format!("{FFX_HOST_LL}/64")], "192.168.99.1"), "ffx");
    assert_eq!(link_mode(false, &none, &none, "192.168.99.1"), "off");
}

use paniolo::netif::{
    add_refused, addr_del_command, addr_replace_command, arp_tuning_commands, best_effort_commands,
    host_ll_commands, ifconfig_up_command, link_up_command, mode_plan, restore_commands,
    setmanual_command, stale_addrs, NetifMode, NetifStep,
};

#[test]
fn mode_plans_stop_netboot_first_and_down_hard_extends_off() {
    assert_eq!(mode_plan(NetifMode::Netboot, "en7", Some("en0"), false).unwrap(), vec![NetifStep::DelHostLl, NetifStep::StartNetboot]);
    assert_eq!(mode_plan(NetifMode::Netboot, "en7", Some("en0"), true).unwrap(), vec![NetifStep::DelHostLl]);
    assert_eq!(mode_plan(NetifMode::Link, "en7", None, true).unwrap(), vec![NetifStep::StopNetboot, NetifStep::DelHostLl, NetifStep::ConfigureInterface]);
    assert_eq!(mode_plan(NetifMode::Ffx, "en7", None, false).unwrap(), vec![NetifStep::AddHostLl]);
    assert_eq!(mode_plan(NetifMode::Off, "en7", None, false).unwrap(), vec![NetifStep::DelHostLl, NetifStep::DelHostIp]);
    assert_eq!(
        mode_plan(NetifMode::DownHard, "en7", None, true).unwrap(),
        vec![NetifStep::StopNetboot, NetifStep::DelHostLl, NetifStep::DelHostIp, NetifStep::DisableWol, NetifStep::AdminDown]
    );
    let e = mode_plan(NetifMode::DownHard, "en0", Some("en0"), false).unwrap_err();
    assert!(e.starts_with("refusing netif down-hard on 'en0'"), "{e}");
}

#[test]
fn step_commands_follow_the_platform() {
    assert_eq!(
        best_effort_commands(NetifStep::DelHostLl, false, "eth1", "192.168.99.1", None),
        vec![vec!["sudo", "ip", "-6", "addr", "del", "fe80::1/64", "dev", "eth1"]]
    );
    assert_eq!(
        best_effort_commands(NetifStep::DelHostIp, true, "en7", "192.168.99.1", Some("AX88179A")),
        vec![
            vec!["sudo", "networksetup", "-setdhcp", "AX88179A"],
            vec!["sudo", "ifconfig", "en7", "inet", "192.168.99.1", "-alias"]
        ]
    );
    assert!(best_effort_commands(NetifStep::DisableWol, true, "en7", "x", None).is_empty());
    assert_eq!(
        best_effort_commands(NetifStep::AdminDown, false, "eth1", "x", None),
        vec![vec!["sudo", "ip", "link", "set", "eth1", "down"]]
    );
    let (pre, add) = host_ll_commands(false, "eth1");
    assert_eq!(pre.len(), 2);
    assert_eq!(pre[0], vec!["sudo", "sysctl", "-w", "net/ipv6/conf/eth1/disable_ipv6=0"]);
    assert_eq!(add, vec!["sudo", "ip", "-6", "addr", "add", "fe80::1/64", "dev", "eth1"]);
    assert!(!add_refused(false, "RTNETLINK answers: File exists"));
    assert!(add_refused(false, "permission denied"));
    assert!(!add_refused(true, "anything"));
    assert_eq!(
        setmanual_command("AX", "192.168.99.1"),
        vec!["sudo", "networksetup", "-setmanual", "AX", "192.168.99.1", "255.255.255.0", "192.168.99.1"]
    );
    assert_eq!(ifconfig_up_command("en7", "10.0.0.1"), vec!["sudo", "ifconfig", "en7", "10.0.0.1", "netmask", "255.255.255.0", "up"]);
    assert_eq!(addr_replace_command("eth1", "10.0.0.1/24"), vec!["sudo", "ip", "addr", "replace", "10.0.0.1/24", "dev", "eth1"]);
    assert_eq!(addr_del_command("eth1", "10.0.0.9/24"), vec!["sudo", "ip", "addr", "del", "10.0.0.9/24", "dev", "eth1"]);
    assert_eq!(link_up_command("eth1"), vec!["sudo", "ip", "link", "set", "eth1", "up"]);
    assert_eq!(restore_commands(false, "eth1", None), vec![vec!["sudo", "ip", "addr", "flush", "dev", "eth1"]]);
    assert!(restore_commands(true, "en7", None).is_empty());
    assert_eq!(arp_tuning_commands(true).len(), 2);
    assert!(arp_tuning_commands(false).is_empty());
    assert_eq!(
        stale_addrs(&vec!["10.0.0.1/24".into(), "10.0.0.9/24".into()], "10.0.0.1/24"),
        vec!["10.0.0.9/24"]
    );
}

#[test]
fn the_status_passes_addresses_through_and_asks_peers_only_in_ffx() {
    let v = |a: &[&str]| a.iter().map(|s| s.to_string()).collect::<Vec<String>>();
    let st = paniolo::netif::get_status(false, true, v(&["10.0.0.1/24"]), v(&["fe80::1/64"]), "10.0.0.1", || v(&["fe80::2"]));
    assert_eq!(st.mode, "ffx");
    assert!(st.carrier);
    assert_eq!(st.inet, v(&["10.0.0.1/24"]));
    assert_eq!(st.peers, v(&["fe80::2"]));
    let st = paniolo::netif::get_status(false, false, v(&["10.0.0.1/24"]), v(&[]), "10.0.0.1", || panic!("not asked"));
    assert_eq!(st.mode, "link");
    assert!(st.peers.is_empty());
    let st = paniolo::netif::get_status(true, true, v(&[]), v(&["fe80::1/64"]), "10.0.0.1", || panic!("not asked"));
    assert_eq!(st.mode, "netboot");
    assert!(st.peers.is_empty());
}
