use paniolo::adb::{argv, spawn_err, screencap_args};

fn rest(parts: &[&str]) -> Vec<String> {
    parts.iter().map(|s| s.to_string()).collect()
}

#[test]
fn argv_inserts_serial_selector() {
    assert_eq!(argv(None, Some("ABC123"), &rest(&["shell"])), vec!["adb", "-s", "ABC123", "shell"]);
}

#[test]
fn argv_omits_selector_for_sole_device() {
    assert_eq!(argv(None, None, &rest(&["devices", "-l"])), vec!["adb", "devices", "-l"]);
}

#[test]
fn argv_honors_custom_binary() {
    assert_eq!(
        argv(Some("/opt/platform-tools/adb"), None, &rest(&["get-state"])),
        vec!["/opt/platform-tools/adb", "get-state"]
    );
}

#[test]
fn spawn_err_names_the_missing_binary_or_quotes_the_error() {
    assert_eq!(
        spawn_err(None, true, "x"),
        "'adb' not found — install the Android platform-tools (adb) on this host"
    );
    assert_eq!(
        spawn_err(Some("/opt/adb"), true, "x"),
        "'/opt/adb' not found — install the Android platform-tools (adb) on this host"
    );
    assert_eq!(spawn_err(None, false, "permission denied"), "failed to run adb: permission denied");
}

#[test]
fn screencap_uses_binary_clean_exec_out() {
    assert_eq!(screencap_args(), vec!["exec-out", "screencap", "-p"]);
}
