use wiremux::ports::port_candidates;

#[test]
fn prefers_cu_pair_when_requested_port_is_tty() {
    let candidates = port_candidates("/dev/tty.usbmodem2101", None);

    assert_eq!(candidates[0], "/dev/cu.usbmodem2101");
    assert_eq!(candidates[1], "/dev/tty.usbmodem2101");
}

#[test]
fn main_prefers_cu_pair_when_requested_port_is_tty() {
    let candidates = port_candidates("/dev/tty.usbmodem2101", None);

    assert_eq!(candidates[0], "/dev/cu.usbmodem2101");
    assert_eq!(candidates[1], "/dev/tty.usbmodem2101");
}

#[test]
fn lib_prefers_cu_pair_when_requested_port_is_tty() {
    let candidates = port_candidates("/dev/tty.usbmodem2101", None);

    assert_eq!(candidates[0], "/dev/cu.usbmodem2101");
    assert_eq!(candidates[1], "/dev/tty.usbmodem2101");
}

#[test]
fn keeps_requested_port_first_when_it_is_cu() {
    let candidates = port_candidates("/dev/cu.usbmodem2101", None);

    assert_eq!(candidates[0], "/dev/cu.usbmodem2101");
}

#[test]
fn main_keeps_requested_port_first_when_it_is_cu() {
    let candidates = port_candidates("/dev/cu.usbmodem2101", None);

    assert_eq!(candidates[0], "/dev/cu.usbmodem2101");
}

#[test]
fn listed_devices_follow_in_path_order_cu_first_without_repeats() {
    let listing: Vec<String> = [
        "/dev/tty.usbmodem9",
        "/dev/cu.usbmodem9",
        "/dev/cu.usbmodem2101",
        "/dev/tty.Bluetooth",
        "/dev/cu.usbmodem1",
        "/dev/tty.usbmodem2101",
        "/dev/cu.usbserial-1",
    ]
    .iter()
    .map(|s| s.to_string())
    .collect();
    let candidates = port_candidates("/dev/tty.usbmodem2101", Some(&listing));
    assert_eq!(
        candidates,
        vec![
            "/dev/cu.usbmodem2101",
            "/dev/tty.usbmodem2101",
            "/dev/cu.usbmodem1",
            "/dev/cu.usbmodem9",
            "/dev/tty.usbmodem9",
        ]
    );
}

#[test]
fn plain_device_gets_no_pair_and_no_listing() {
    let listing = vec!["/dev/ttyUSB1".to_string()];
    assert_eq!(port_candidates("/dev/ttyUSB0", Some(&listing)), vec!["/dev/ttyUSB0"]);
}
