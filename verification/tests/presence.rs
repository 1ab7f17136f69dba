use gpu_arbiter::presence::{
    is_human_input, is_local_present, is_physical_syspath, InputCaps, PresenceMonitor,
};

#[test]
fn virtual_syspath_is_not_physical() {
    assert!(!is_physical_syspath(
        "/sys/devices/virtual/input/input42/event12"
    ));
    assert!(!is_physical_syspath("/sys/devices/virtual/input/input7"));
}

#[test]
fn real_usb_syspath_is_physical() {
    assert!(is_physical_syspath(
        "/sys/devices/pci0000:00/0000:00:14.0/usb1/1-3/1-3:1.0/0003:046D:C52B.0001/input/input5/event3"
    ));
    assert!(is_physical_syspath(
        "/sys/devices/platform/i8042/serio0/input/input1/event1"
    ));
}

#[test]
fn keyboard_mouse_gamepad_are_human_input() {
    assert!(is_human_input(InputCaps {
        has_keys: true,
        has_rel: false,
        has_abs: false,
    }));
    assert!(is_human_input(InputCaps {
        has_keys: true,
        has_rel: true,
        has_abs: false,
    }));
    assert!(is_human_input(InputCaps {
        has_keys: true,
        has_rel: false,
        has_abs: true,
    }));
    assert!(is_human_input(InputCaps {
        has_keys: false,
        has_rel: false,
        has_abs: true,
    }));
}

#[test]
fn pseudo_devices_are_not_human_input() {
    assert!(!is_human_input(InputCaps {
        has_keys: false,
        has_rel: false,
        has_abs: false,
    }));
    assert!(!is_human_input(InputCaps::default()));
}

#[test]
fn record_input_is_monotonic() {
    let mut m = PresenceMonitor::new(1_000);
    assert_eq!(m.last_input_unix(), 1_000);
    m.record_input(2_000);
    assert_eq!(m.last_input_unix(), 2_000);
    m.record_input(1_500);
    assert_eq!(m.last_input_unix(), 2_000);
}

#[test]
fn fresh_monitor_is_unhealthy_with_no_devices() {
    let m = PresenceMonitor::new(1_000);
    assert!(!m.healthy());
    assert_eq!(m.device_count(), 0);
}

#[test]
fn local_present_follows_recency_and_health() {
    assert!(is_local_present(1_000_000, 1_000_010, 600, true));
    assert!(!is_local_present(1_000_000, 1_000_700, 600, true));
    assert!(!is_local_present(1_000_000, 1_000_010, 600, false));
    assert!(!is_local_present(1_000_000, 1_000_600, 600, true));
}

#[test]
fn startup_bias_seeds_last_input() {
    let m = PresenceMonitor::new(1_700_000_000);
    assert_eq!(m.last_input_unix(), 1_700_000_000);
}

#[test]
fn monitor_is_shown_as_it_stands() {
    let mut m = PresenceMonitor::new(5);
    m.set_healthy(true);
    m.set_device_count(3);
    m.record_input(9);
    let p = m.seen();
    assert_eq!(p.last_input_unix, 9);
    assert_eq!(p.devices, 3);
    assert!(p.monitor_up);
}

#[test]
fn presence_does_not_overflow() {
    assert!(!is_local_present(i64::MIN, i64::MAX, i64::MAX, true));
    assert!(is_local_present(i64::MAX, i64::MIN, 0, true));
}

#[test]
fn latest_input_is_kept_in_any_order() {
    let mut m = PresenceMonitor::new(100);
    for t in [90, 300, 200, 300, 100] {
        m.record_input(t);
    }
    assert_eq!(m.last_input_unix(), 300);
    assert!(!m.healthy());
    assert_eq!(m.device_count(), 0);
}
