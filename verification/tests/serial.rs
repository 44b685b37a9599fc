use paniolo::model::SerialChannel;
use paniolo::serial::{input_timeout_ms, input_url, interface_arg, preferred_alias};

fn ch(name: &str, sense: Option<&str>) -> SerialChannel {
    SerialChannel {
        name: name.into(),
        device: "/dev/ttyUSB0".into(),
        baud: 115200,
        power_sense_signal: sense.map(String::from),
        power_button: false,
        host: None,
    }
}

#[test]
fn interface_arg_formats_name_device_baud() {
    assert_eq!(interface_arg(&ch("console", None)), "console=/dev/ttyUSB0@115200");
}

#[test]
fn interface_arg_appends_sense() {
    assert_eq!(interface_arg(&ch("console", Some("cts"))), "console=/dev/ttyUSB0@115200:cts");
}

#[test]
fn preferred_alias_picks_by_id_over_by_path() {
    let aliases = vec![
        "/dev/serial/by-path/platform-xhci-hcd.1-usb-0:1.2:1.0-port0".to_string(),
        "/dev/serial/by-id/usb-1a86_USB2.0-Serial-if00-port0".to_string(),
        "/dev/serial/by-path/platform-xhci-hcd.1-usbv2-0:1.2:1.0-port0".to_string(),
    ];
    assert_eq!(preferred_alias(&aliases).unwrap(), "/dev/serial/by-id/usb-1a86_USB2.0-Serial-if00-port0");
}

#[test]
fn preferred_alias_falls_back_to_first_sorted_by_path() {
    let aliases = vec![
        "/dev/serial/by-path/platform-xhci-hcd.1-usbv2-0:1.2:1.0-port0".to_string(),
        "/dev/serial/by-path/platform-xhci-hcd.1-usb-0:1.2:1.0-port0".to_string(),
    ];
    assert_eq!(
        preferred_alias(&aliases).unwrap(),
        "/dev/serial/by-path/platform-xhci-hcd.1-usb-0:1.2:1.0-port0"
    );
    assert_eq!(preferred_alias(&[]), None);
}

#[test]
fn input_requests_carry_the_pace_and_get_enough_time() {
    assert_eq!(input_url("http://127.0.0.1:9", "console", 0), "http://127.0.0.1:9/input?interface=console");
    assert_eq!(
        input_url("http://127.0.0.1:9", "console", 5),
        "http://127.0.0.1:9/input?interface=console&pace_ms=5"
    );
    assert_eq!(input_timeout_ms(10, 5), 15_000);
    assert_eq!(input_timeout_ms(2000, 5), 20_000);
}
