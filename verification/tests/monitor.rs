use gameremap::devices::{
    check_access, classify, device_supports_any, is_gaming_key, prepare_setup, prepare_teardown, script_outcome,
    username_is_safe, AccessStatus, DeviceReader, ScriptKind,
};
use gameremap::event_types::{format_millis, DisplayEvent, EventHighlight};
use gameremap::hidraw::{
    changed_mask, enumerate_all, enumerate_by_vid, hex_bytes, parse_uevent, HidRawDevice, HidRawReport,
};
use gameremap::monitor_view::{
    interface_label, report_keys, CaptureState, DebugView, ViewMode, MAX_EVENTS, MAX_HID_REPORTS,
};
use gameremap::store::{
    config_dir, is_profile_file, profile_file_name, profiles_dir, settings_path, sort_by_name, uuid_hyphenated,
};
use gameremap::config::Profile;
use std::sync::atomic::Ordering;
use std::time::Duration;

fn ev(ms: u64, device: &str, event_type: &'static str, value: &str) -> DisplayEvent {
    DisplayEvent {
        elapsed: Duration::from_millis(ms),
        device_name: device.to_string(),
        event_type,
        code_name: "KEY_A".to_string(),
        value_str: value.to_string(),
        highlight: EventHighlight::Normal,
    }
}

// ── Event classification ──────────────────────────────────────────────────────

#[test]
fn classify_keys_scans_and_axes() {
    let mut pending = None;
    let (t, name, value, hl) = classify(4, 4, 0x70004, &mut pending);
    assert_eq!((t, name.as_str(), value.as_str()), ("EV_MSC", "MSC_SCAN", "0x70004"));
    assert!(hl == EventHighlight::Normal);
    assert_eq!(pending, Some(0x70004));

    let (t, name, value, hl) = classify(1, 30, 1, &mut pending);
    assert_eq!((t, name.as_str(), value.as_str()), ("EV_KEY", "KEY_A", "press"));
    assert!(hl == EventHighlight::Normal);
    assert_eq!(pending, None);

    let (_, name, value, hl) = classify(1, 183, 0, &mut pending);
    assert_eq!((name.as_str(), value.as_str()), ("KEY_F13", "release"));
    assert!(hl == EventHighlight::Gaming);
    let (_, _, value, _) = classify(1, 30, 2, &mut pending);
    assert_eq!(value, "repeat");
    let (_, _, value, _) = classify(1, 30, 7, &mut pending);
    assert_eq!(value, "7");

    let (t, name, value, hl) = classify(2, 0, 5, &mut pending);
    assert_eq!((t, name.as_str(), value.as_str()), ("EV_REL", "RelAxis(REL_X)", "+5"));
    assert!(hl == EventHighlight::Normal);
    let (_, _, value, _) = classify(2, 1, -3, &mut pending);
    assert_eq!(value, "-3");
    let (t, name, value, hl) = classify(0, 0, 0, &mut pending);
    assert_eq!((t, name.as_str(), value.as_str()), ("EV_SYN", "Synchronization(SYN_REPORT)", ""));
    assert!(hl == EventHighlight::Sync);
    let (t, name, _, _) = classify(3, 0, 100, &mut pending);
    assert_eq!((t, name.as_str()), ("EV_ABS", "AbsAxis(ABS_X)"));
    let mut pending = Some(9);
    let (t, _, value, _) = classify(4, 5, -1, &mut pending);
    assert_eq!((t, value.as_str()), ("EV_?", "-1"));
    assert_eq!(pending, None);
    let mut pending = None;
    let (_, _, value, _) = classify(4, 4, -1, &mut pending);
    assert_eq!(value, "0xffffffff");
}

#[test]
fn gaming_keys() {
    for code in [0x290, 0x2AD, 0x2C0, 0x2E7, 183, 194, 149, 152] {
        assert!(is_gaming_key(code), "{code:#x}");
    }
    for code in [0x28F, 0x2AE, 0x2BF, 0x2E8, 182, 195, 148, 153, 30] {
        assert!(!is_gaming_key(code), "{code:#x}");
    }
}

#[test]
fn devices_with_profile_keys() {
    assert!(device_supports_any(Some(&[1u16, 30, 56][..]), &["KEY_LEFTALT", "KEY_MACRO1"]));
    assert!(!device_supports_any(Some(&[1u16, 30][..]), &["KEY_LEFTALT"]));
    assert!(!device_supports_any(None, &["KEY_A"]));
    assert!(!device_supports_any(Some(&[30u16][..]), &[]));
}

#[test]
fn access_to_event_nodes() {
    let nodes = |v: &[(&str, bool)]| v.iter().map(|(n, b)| (n.to_string(), *b)).collect::<Vec<_>>();
    assert_eq!(check_access(None), AccessStatus::NoDevices);
    assert_eq!(check_access(Some(&nodes(&[("by-id", true), ("mice", true)]))), AccessStatus::NoDevices);
    assert_eq!(check_access(Some(&nodes(&[("event0", false), ("event1", false)]))), AccessStatus::Denied);
    assert_eq!(check_access(Some(&nodes(&[("event0", false), ("event7", true)]))), AccessStatus::Granted);
}

#[test]
fn setup_and_teardown_scripts() {
    assert!(username_is_safe("ben_leone-2"));
    assert!(!username_is_safe("ben;rm"));
    assert!(username_is_safe("jürgen"));
    assert!(!username_is_safe("a.b"));
    let (path, script) = prepare_setup("alice", 4242).unwrap();
    assert_eq!(path, "/tmp/gameremap-setup-4242.sh");
    assert!(script.starts_with("#!/bin/sh\nset -e\nusermod -aG input alice\ncat > /etc/udev/rules.d/99-gameremap.rules"));
    assert!(script.contains("KERNEL==\"hidraw*\", GROUP=\"input\", MODE=\"0660\"\n"));
    assert!(script.ends_with("udevadm trigger --subsystem-match=input\n"));
    assert_eq!(
        prepare_setup("a b", 1),
        Err("Unexpected characters in username \"a b\"; aborting setup.".to_string())
    );
    let (path, script) = prepare_teardown(7);
    assert_eq!(path, "/tmp/gameremap-teardown-7.sh");
    assert!(script.contains("rm -f /etc/udev/rules.d/99-gameremap.rules\n"));
    assert_eq!(script_outcome(ScriptKind::Setup, true, Some(0)), Ok(()));
    assert_eq!(script_outcome(ScriptKind::Setup, false, Some(126)), Err("Authentication cancelled.".to_string()));
    assert_eq!(script_outcome(ScriptKind::Teardown, false, Some(127)), Err("pkexec: command not found.".to_string()));
    assert_eq!(script_outcome(ScriptKind::Setup, false, Some(3)), Err("Setup script exited with code 3.".to_string()));
    assert_eq!(
        script_outcome(ScriptKind::Teardown, false, None),
        Err("Teardown process terminated by signal.".to_string())
    );
}

#[test]
fn reader_handle_clears_its_flag_when_dropped() {
    let (handle, flag) = DeviceReader::new_with_cancel();
    assert!(flag.load(Ordering::Relaxed));
    drop(handle);
    assert!(!flag.load(Ordering::Relaxed));
}

// ── Time stamps ───────────────────────────────────────────────────────────────

#[test]
fn elapsed_time_format() {
    assert_eq!(DisplayEvent::format_elapsed(Duration::from_millis(0)), "00:00.000");
    assert_eq!(DisplayEvent::format_elapsed(Duration::from_millis(61_005)), "01:01.005");
    assert_eq!(DisplayEvent::format_elapsed(Duration::from_micros(1_999_999)), "00:01.999");
    assert_eq!(format_millis(6_000_000), "100:00.000");
}

// ── hidraw ────────────────────────────────────────────────────────────────────

#[test]
fn report_hex_and_changed_bytes() {
    assert_eq!(hex_bytes(&[0x0A, 0xFF, 0x03]), "0A FF 03");
    assert_eq!(hex_bytes(&[]), "");
    let r = HidRawReport {
        elapsed: Duration::from_millis(1),
        device: HidRawDevice { hidraw_path: "/dev/hidraw0".into(), name: "x".into(), vid: 1, pid: 2, interface: 0 },
        data: vec![1, 2],
        changed: vec![],
    };
    assert_eq!(r.hex(), "01 02");
    assert_eq!(changed_mask(&[], &[1, 2]), Vec::<bool>::new());
    assert_eq!(changed_mask(&[1, 2], &[1, 3, 4]), vec![false, true, true]);
}

#[test]
fn uevent_parsing_and_listing() {
    let ue = "DRIVER=hid-generic\nHID_ID=0003:0000046D:0000C08B\nHID_NAME=Logitech G502\nHID_PHYS=usb-0000:00:14.0-2/input1\n";
    let d = parse_uevent("hidraw4", ue).unwrap();
    assert_eq!(d.hidraw_path, "/dev/hidraw4");
    assert_eq!(d.name, "Logitech G502");
    assert_eq!((d.vid, d.pid, d.interface), (0x046D, 0xC08B, 1));
    let no_phys = parse_uevent("hidraw1", "HID_ID=0003:0000046D:0000C08B\n").unwrap();
    assert_eq!(no_phys.name, "Unknown");
    assert_eq!(no_phys.interface, 0xFF);
    assert!(parse_uevent("hidraw1", "HID_NAME=x\n").is_none());
    assert!(parse_uevent("hidraw1", "HID_ID=0003:ZZ:0001\n").is_none());

    let entries = vec![
        ("hidraw2".to_string(), "HID_ID=0003:00001B1C:00001B11\nHID_PHYS=a/input1\n".to_string()),
        ("hidraw0".to_string(), "HID_ID=0003:0000046D:0000C08B\nHID_PHYS=a/input0\n".to_string()),
        ("hidraw1".to_string(), "HID_ID=0003:00001B1C:00001B11\nHID_PHYS=a/input0\n".to_string()),
        ("hidraw9".to_string(), "garbage".to_string()),
    ];
    let all = enumerate_all(&entries);
    let keys: Vec<(u32, u8)> = all.iter().map(|d| (d.vid, d.interface)).collect();
    assert_eq!(keys, vec![(0x046D, 0), (0x1B1C, 0), (0x1B1C, 1)]);
    let corsair = enumerate_by_vid(&entries, 0x1B1C);
    assert_eq!(corsair.len(), 2);
    assert!(corsair.iter().all(|d| d.vid == 0x1B1C));

    let twins = vec![
        ("hidraw7".to_string(), "HID_ID=0003:00001B1C:00001B11\nHID_PHYS=a/input2\n".to_string()),
        ("hidraw3".to_string(), "HID_ID=0003:00001B1C:00001B11\nHID_PHYS=b/input2\n".to_string()),
        ("hidraw5".to_string(), "HID_ID=0003:00001B1C:00001B11\nHID_PHYS=c/input0\n".to_string()),
    ];
    let paths: Vec<String> = enumerate_all(&twins).into_iter().map(|d| d.hidraw_path).collect();
    assert_eq!(paths, vec!["/dev/hidraw5", "/dev/hidraw7", "/dev/hidraw3"]);
}

// ── The monitor's log ─────────────────────────────────────────────────────────

#[test]
fn monitor_starts_paused_with_permission_state() {
    let v = DebugView::new(AccessStatus::Granted, vec!["Kbd".to_string()]);
    assert!(!v.show_permission_popup && !v.no_devices);
    assert!(v.paused && v.hide_syn && v.hide_rel);
    assert_eq!(v.view_mode, ViewMode::SingleCapture);
    let v = DebugView::new(AccessStatus::Denied, vec![]);
    assert!(v.show_permission_popup && !v.no_devices);
    let v = DebugView::new(AccessStatus::NoDevices, vec![]);
    assert!(v.show_permission_popup && v.no_devices);
}

#[test]
fn monitor_keeps_the_last_events_and_filters_them() {
    let mut v = DebugView::new(AccessStatus::Granted, vec![]);
    v.drain_channel((0..1500).map(|i| ev(i, "Kbd", "EV_KEY", "press")).collect());
    v.drain_channel((1500..2600).map(|i| ev(i, "Kbd", "EV_KEY", "press")).collect());
    assert_eq!(v.events.len(), MAX_EVENTS);
    assert_eq!(v.events[0].elapsed, Duration::from_millis(600));
    assert_eq!(v.events[MAX_EVENTS - 1].elapsed, Duration::from_millis(2599));

    assert!(!v.is_visible(&ev(0, "Kbd", "EV_SYN", "")));
    assert!(!v.is_visible(&ev(0, "Kbd", "EV_REL", "+1")));
    assert!(v.is_visible(&ev(0, "Kbd", "EV_KEY", "press")));
    v.hide_syn = false;
    assert!(v.is_visible(&ev(0, "Kbd", "EV_SYN", "")));
    v.selected_evdev = vec!["Mouse".to_string()];
    assert!(!v.is_visible(&ev(0, "Kbd", "EV_KEY", "press")));
    assert!(v.is_visible(&ev(0, "Mouse", "EV_KEY", "press")));

    v.log_auto_clear_secs = 1;
    v.retain_recent(Duration::from_millis(3000));
    assert_eq!(v.events.len(), 600);
    assert_eq!(v.events[0].elapsed, Duration::from_millis(2000));
}

#[test]
fn single_capture_takes_the_first_key_press() {
    let batch = vec![
        ev(1, "Kbd", "EV_MSC", "0x4"),
        ev(2, "Kbd", "EV_KEY", "release"),
        ev(3, "Pad", "G_KEY", "press"),
        ev(4, "Kbd", "EV_KEY", "press"),
    ];
    let got = DebugView::drain_for_capture(batch).unwrap();
    assert_eq!(got.device_name, "Pad");
    assert!(DebugView::drain_for_capture(vec![ev(1, "Kbd", "EV_SYN", "")]).is_none());
}

#[test]
fn hid_probe_starts_only_with_devices() {
    let mut v = DebugView::new(AccessStatus::Granted, vec![]);
    assert!(!v.start_hid_probe(vec![]));
    assert!(!v.hid_probing);
    let d = HidRawDevice { hidraw_path: "/dev/hidraw0".into(), name: "x".into(), vid: 1, pid: 2, interface: 0 };
    assert!(v.start_hid_probe(vec![d]));
    assert!(v.hid_probing);
    assert_eq!(v.hid_devices.len(), 1);
}

// ── Store ─────────────────────────────────────────────────────────────────────

#[test]
fn config_paths() {
    assert_eq!(config_dir(Some("/home/u/.config"), "/home/u"), "/home/u/.config/gameremap");
    assert_eq!(config_dir(None, "/home/u"), "/home/u/.config/gameremap");
    assert_eq!(config_dir(None, ""), ".config/gameremap");
    assert_eq!(config_dir(Some("/cfg/"), "/home/u"), "/cfg/gameremap");
    assert_eq!(profiles_dir("/c/gameremap"), "/c/gameremap/profiles");
    assert_eq!(settings_path("/c/gameremap"), "/c/gameremap/settings.toml");
}

#[test]
fn profile_files_are_named_by_uuid() {
    for id in [0u128, 1, 0x0123_4567_89ab_cdef_fedc_ba98_7654_3210, u128::MAX] {
        assert_eq!(uuid_hyphenated(id), uuid::Uuid::from_u128(id).to_string());
    }
    assert_eq!(profile_file_name(1), "00000000-0000-0000-0000-000000000001.toml");
    assert_ne!(profile_file_name(1), profile_file_name(16));
    assert_ne!(profile_file_name(1 << 64), profile_file_name(1 << 68));
    assert!(is_profile_file("a.toml"));
    assert!(!is_profile_file(".toml"));
    assert!(!is_profile_file("a.toml~"));
    assert!(!is_profile_file("atoml"));
}

#[test]
fn profiles_sort_by_name_keeping_ties() {
    let mut b1 = Profile::new("b".to_string());
    b1.id = 1;
    let mut b2 = Profile::new("b".to_string());
    b2.id = 2;
    let ps = vec![Profile::new("c".to_string()), b1, Profile::new("B".to_string()), b2, Profile::new("a".to_string())];
    let sorted = sort_by_name(ps);
    let got: Vec<(&str, u128)> =
        sorted.iter().map(|p| (p.name.as_str(), if p.name == "b" { p.id } else { 0 })).collect();
    assert_eq!(got, vec![("B", 0), ("a", 0), ("b", 1), ("b", 2), ("c", 0)]);
}

// ── Monitor controls ──────────────────────────────────────────────────────────

fn hid_report(ms: u64, path: &str, data: Vec<u8>) -> HidRawReport {
    HidRawReport {
        elapsed: Duration::from_millis(ms),
        device: HidRawDevice { hidraw_path: path.to_string(), name: "Dev".to_string(), vid: 1, pid: 2, interface: 1 },
        changed: vec![false; data.len()],
        data,
    }
}

#[test]
fn capture_waits_for_a_key_press_only_while_capturing() {
    let mut v = DebugView::new(AccessStatus::Granted, vec![]);
    v.capture_step(vec![ev(1, "Kbd", "EV_KEY", "press")]);
    assert!(matches!(v.capture, CaptureState::Idle));
    v.capture = CaptureState::Capturing;
    v.capture_step(vec![ev(2, "Kbd", "EV_SYN", ""), ev(3, "Kbd", "EV_KEY", "release")]);
    assert!(matches!(v.capture, CaptureState::Capturing));
    v.capture_step(vec![ev(4, "Mouse", "EV_REL", ""), ev(5, "Pad", "G_KEY", "press"), ev(6, "Kbd", "EV_KEY", "press")]);
    match &v.capture {
        CaptureState::Captured(e) => assert_eq!(e.device_name, "Pad"),
        _ => panic!("nothing captured"),
    }
    v.capture_step(vec![ev(7, "Kbd", "EV_KEY", "press")]);
    match &v.capture {
        CaptureState::Captured(e) => assert_eq!(e.device_name, "Pad"),
        _ => panic!("capture lost"),
    }
}

#[test]
fn log_auto_stop_pauses_after_its_window() {
    let mut v = DebugView::new(AccessStatus::Granted, vec![]);
    assert!(v.paused);
    assert!(!v.log_tick(Duration::from_secs(1)));
    v.toggle_pause(Duration::from_secs(1));
    assert!(!v.paused);
    assert_eq!(v.stop_deadline, None);
    assert!(v.log_tick(Duration::from_secs(100)));
    v.toggle_pause(Duration::from_secs(100));
    assert!(v.paused);
    v.log_auto_stop = true;
    v.toggle_pause(Duration::from_secs(2));
    assert_eq!(v.stop_deadline, Some(12_000_000_000));
    assert!(v.log_tick(Duration::from_millis(11_999)));
    assert!(!v.paused);
    assert!(!v.log_tick(Duration::from_secs(12)));
    assert!(v.paused);
    assert_eq!(v.stop_deadline, None);
}

#[test]
fn device_filters_toggle_and_select_reports() {
    let mut v = DebugView::new(AccessStatus::Granted, vec!["Kbd".to_string(), "Mouse".to_string()]);
    v.toggle_device("Mouse".to_string());
    assert_eq!(v.selected_evdev, vec!["Mouse"]);
    v.hide_rel = false;
    assert!(v.is_visible(&ev(1, "Mouse", "EV_REL", "+1")));
    assert!(!v.is_visible(&ev(1, "Kbd", "EV_KEY", "press")));
    v.toggle_device("Mouse".to_string());
    assert!(v.selected_evdev.is_empty());

    let r1 = hid_report(1, "/dev/hidraw1", vec![1]);
    let r2 = hid_report(2, "/dev/hidraw2", vec![2]);
    assert!(v.hid_visible(&r1) && v.hid_visible(&r2));
    v.toggle_hid("/dev/hidraw2".to_string());
    assert!(!v.hid_visible(&r1));
    assert!(v.hid_visible(&r2));
}

#[test]
fn hid_reports_are_capped_and_cleared_by_age() {
    let mut v = DebugView::new(AccessStatus::Granted, vec![]);
    let batch: Vec<HidRawReport> = (0..(MAX_HID_REPORTS as u64 + 5)).map(|i| hid_report(i * 100, "/dev/hidraw0", vec![i as u8])).collect();
    v.push_hid_reports(batch);
    assert_eq!(v.hid_reports.len(), MAX_HID_REPORTS);
    assert_eq!(v.hid_reports[0].data, vec![5]);
    v.hid_auto_clear_secs = 5;
    let last = v.hid_reports.last().unwrap().elapsed;
    v.retain_recent_reports(last);
    assert_eq!(v.hid_reports.len(), 51);
    assert_eq!(v.hid_reports[0].elapsed, last - Duration::from_secs(5));
}

#[test]
fn hid_probe_labels() {
    assert_eq!(report_keys(&[0x03, 0x05, 0x00]), "");
    let mut g = vec![0u8; 19];
    g[0] = 0x03;
    assert_eq!(report_keys(&g), "");
    g[16] = 0b0000_0101;
    g[18] = 0b1000_0000;
    assert_eq!(report_keys(&g), "G1+G3+G18");
    let dev = HidRawDevice { hidraw_path: "/dev/hidraw3".to_string(), name: "K95".to_string(), vid: 0x1B1C, pid: 0x1B11, interface: 2 };
    assert_eq!(interface_label(&dev), "hidraw3 if2");
    let bare = HidRawDevice { hidraw_path: "hidraw7".to_string(), ..dev };
    assert_eq!(interface_label(&bare), "hidraw7 if2");
}

#[test]
fn unnamed_keys_show_as_unknown_with_their_scan_code() {
    let mut pending = None;
    let _ = classify(4, 4, 0x70068, &mut pending);
    let (t, name, value, hl) = classify(1, 0x2FF, 1, &mut pending);
    assert_eq!((t, name.as_str(), value.as_str()), ("EV_KEY", "KEY_UNKNOWN [scan=0x70068]", "press"));
    assert!(hl == EventHighlight::Unknown);
    let (_, name, _, hl) = classify(1, 0x2FF, 0, &mut pending);
    assert_eq!(name, "KEY_UNKNOWN");
    assert!(hl == EventHighlight::Unknown);
}
