use paniolo::power::{button_path, dtr_timeout_ms, status_path};

#[test]
fn dtr_timeout_saturates_instead_of_overflowing() {
    assert_eq!(dtr_timeout_ms(1_000), 15_000, "floored at 15s");
    assert_eq!(dtr_timeout_ms(20_000), 25_000);
    assert_eq!(dtr_timeout_ms(u64::MAX), u64::MAX);
}

#[test]
fn dtr_press_daemon_percent_encodes_the_interface() {
    assert_eq!(button_path("a b&c", 10), "/button?interface=a%20b%26c&ms=10");
    assert_eq!(button_path("console", 250), "/button?interface=console&ms=250");
}

#[test]
fn read_power_state_percent_encodes_the_interface() {
    assert_eq!(status_path("a b&c"), "/status?interface=a%20b%26c");
}

#[test]
fn a_status_body_gives_the_power_state_or_unknown() {
    assert_eq!(paniolo::power::power_state_of("{\"power_on\": true, \"interface\": \"console\"}"), Some(true));
    assert_eq!(paniolo::power::power_state_of("{\"power_on\": false}"), Some(false));
    assert_eq!(paniolo::power::power_state_of("{\"power_on\": null}"), None);
    assert_eq!(paniolo::power::power_state_of("{\"interface\": \"console\"}"), None);
    assert_eq!(paniolo::power::power_state_of("{\"power_on\": \"yes\"}"), None);
    assert_eq!(paniolo::power::power_state_of("not json"), None);
}
