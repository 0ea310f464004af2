use gameremap::drivers::bits::{mask_changes, ButtonChange, MaskTracker};
use gameremap::drivers::{
    plan_drivers, start_supplemental_drivers, supplemental_drivers, unique_vendor_ids, DriverKind, DriverSession,
    RawEvent, SupplementalDriver,
};
use gameremap::drivers::corsair::{registered_drivers as corsair_drivers, CorsairK95Driver};
use gameremap::drivers::logitech::{registered_drivers as logitech_drivers, G502Driver};
use gameremap::drivers::utechsmart::{registered_drivers as utechsmart_drivers, VenusDriver};
use gameremap::event_types::EventHighlight;
use gameremap::hidraw::{HidRawDevice, HidRawReport};
use std::time::Duration;

fn device(name: &str, interface: u8) -> HidRawDevice {
    HidRawDevice {
        hidraw_path: "/dev/hidraw3".to_string(),
        name: name.to_string(),
        vid: 0,
        pid: 0,
        interface,
    }
}

fn report(dev: &HidRawDevice, data: Vec<u8>, ms: u64) -> HidRawReport {
    HidRawReport {
        elapsed: Duration::from_millis(ms),
        device: dev.duplicate(),
        changed: vec![false; data.len()],
        data,
    }
}

#[test]
fn mask_changes_lists_differences_in_button_order() {
    let cs = mask_changes(0b0101, 0b0110, 4);
    assert_eq!(
        cs,
        vec![
            ButtonChange { index: 0, pressed: false },
            ButtonChange { index: 1, pressed: true },
        ]
    );
    // Bits at or above the count are not reported.
    assert_eq!(mask_changes(0, 1 << 5, 5), vec![]);
    assert_eq!(mask_changes(7, 7, 3), vec![]);
}

#[test]
fn tracker_follows_the_last_decoded_mask() {
    let mut t = MaskTracker::new();
    assert_eq!(t.prev_mask, 0);
    assert_eq!(t.update(Some(0b10), 2), vec![ButtonChange { index: 1, pressed: true }]);
    assert_eq!(t.prev_mask, 0b10);
    // A report that is not a button report changes nothing.
    assert_eq!(t.update(None, 2), vec![]);
    assert_eq!(t.prev_mask, 0b10);
    // The same mask again reports nothing.
    assert_eq!(t.update(Some(0b10), 2), vec![]);
    assert_eq!(t.update(Some(0b01), 2), vec![
        ButtonChange { index: 0, pressed: true },
        ButtonChange { index: 1, pressed: false },
    ]);
    assert_eq!(t.prev_mask, 0b01);
}

#[test]
fn k95_session_shows_and_injects_gkeys() {
    let dev = device("Corsair K95", 0);
    let mut s = DriverSession::new(DriverKind::CorsairK95, true);
    let mut data = vec![0u8; 64];
    data[0] = 0x03;
    data[16] = 0x01; // G1 down
    let out = s.handle_report(&report(&dev, data.clone(), 1500));
    assert_eq!(out.display.len(), 1);
    let ev = &out.display[0];
    assert_eq!(ev.event_type, "G_KEY");
    assert_eq!(ev.code_name, "G1");
    assert_eq!(ev.value_str, "press");
    assert_eq!(ev.device_name, "Corsair K95");
    assert_eq!(ev.elapsed, Duration::from_millis(1500));
    assert!(ev.highlight == EventHighlight::Gaming);
    assert_eq!(
        out.emit,
        vec![
            RawEvent { event_type: 1, code: 0x290, value: 1 },
            RawEvent { event_type: 0, code: 0, value: 0 },
        ]
    );
    // The same report again: nothing changes.
    let again = s.handle_report(&report(&dev, data.clone(), 1510));
    assert!(again.display.is_empty());
    assert!(again.emit.is_empty());
    // G1 up, G18 down.
    data[16] = 0x00;
    data[18] = 0x80;
    let out = s.handle_report(&report(&dev, data, 1600));
    let names: Vec<(String, String)> =
        out.display.iter().map(|e| (e.code_name.clone(), e.value_str.clone())).collect();
    assert_eq!(
        names,
        vec![("G1".to_string(), "release".to_string()), ("G18".to_string(), "press".to_string())]
    );
    assert_eq!(
        out.emit,
        vec![
            RawEvent { event_type: 1, code: 0x290, value: 0 },
            RawEvent { event_type: 1, code: 0x290 + 17, value: 1 },
            RawEvent { event_type: 0, code: 0, value: 0 },
        ]
    );
    assert_eq!(s.tracker.prev_mask, 1 << 17);
}

#[test]
fn session_without_uinput_only_shows() {
    let dev = device("Venus", 1);
    let mut s = DriverSession::new(DriverKind::Venus, false);
    let mut data = vec![0u8; 8];
    data[2] = 0x57; // button 12
    let out = s.handle_report(&report(&dev, data, 10));
    assert_eq!(out.display.len(), 1);
    assert_eq!(out.display[0].event_type, "SIDE_BUTTON");
    assert_eq!(out.display[0].code_name, "M12");
    assert!(out.emit.is_empty());
}

#[test]
fn session_ignores_reports_of_other_interfaces() {
    let dev = device("G502", 0);
    let mut s = DriverSession::new(DriverKind::G502, true);
    let mut data = vec![0u8; 9];
    data[0] = 0x01;
    data[3] = 0x19;
    let out = s.handle_report(&report(&dev, data.clone(), 10));
    assert!(out.display.is_empty());
    assert!(out.emit.is_empty());
    assert_eq!(s.tracker.prev_mask, 0);
    let dev1 = device("G502", 1);
    let out = s.handle_report(&report(&dev1, data, 20));
    assert_eq!(out.display.len(), 1);
    assert_eq!(out.display[0].code_name, "KEY_MACRO2");
    assert_eq!(out.display[0].event_type, "G_KEY");
    assert_eq!(out.emit[0], RawEvent { event_type: 1, code: 0x291, value: 1 });
}

#[test]
fn driver_ids_and_registration() {
    assert_eq!(CorsairK95Driver.vendor_id(), 0x1B1C);
    assert_eq!(CorsairK95Driver.product_id(), 0x1B11);
    assert_eq!(G502Driver.vendor_id(), 0x046D);
    assert_eq!(G502Driver.product_id(), 0xC08B);
    assert_eq!(VenusDriver.vendor_id(), 0x04D9);
    assert_eq!(VenusDriver.product_id(), 0xFA58);
    assert_eq!(corsair_drivers(), vec![DriverKind::CorsairK95]);
    assert_eq!(logitech_drivers(), vec![DriverKind::G502]);
    assert_eq!(utechsmart_drivers(), vec![DriverKind::Venus]);
    assert_eq!(supplemental_drivers(), vec![DriverKind::CorsairK95, DriverKind::Venus]);
}

#[test]
fn vendor_ids_are_listed_once() {
    let ds = vec![DriverKind::Venus, DriverKind::CorsairK95, DriverKind::Venus, DriverKind::G502];
    assert_eq!(unique_vendor_ids(&ds), vec![0x04D9, 0x1B1C, 0x046D]);
}

fn uevent(vid: u32, pid: u32, name: &str, iface: u8) -> String {
    format!(
        "DRIVER=hid-generic\nHID_ID=0003:{vid:08X}:{pid:08X}\nHID_NAME={name}\nHID_PHYS=usb-0000:00:14.0-4/input{iface}\n"
    )
}

#[test]
fn drivers_start_only_for_devices_present() {
    let entries = vec![
        ("hidraw0".to_string(), uevent(0x1B1C, 0x1B11, "Corsair K95", 1)),
        ("hidraw1".to_string(), uevent(0x046D, 0xC08B, "Logitech G502", 1)),
        ("hidraw2".to_string(), uevent(0x1B1C, 0x1B11, "Corsair K95", 0)),
        ("hidraw3".to_string(), uevent(0x1B1C, 0x9999, "Other Corsair", 0)),
    ];
    let launches = start_supplemental_drivers(&entries);
    assert_eq!(launches.len(), 1);
    assert_eq!(launches[0].kind, DriverKind::CorsairK95);
    let ifaces: Vec<u8> = launches[0].devices.iter().map(|d| d.interface).collect();
    assert_eq!(ifaces, vec![0, 1]);
    assert!(launches[0].devices.iter().all(|d| d.name == "Corsair K95"));

    // The G502 driver is started when asked for.
    let launches = plan_drivers(&vec![DriverKind::G502, DriverKind::Venus], &entries);
    assert_eq!(launches.len(), 1);
    assert_eq!(launches[0].kind, DriverKind::G502);
    assert_eq!(launches[0].devices[0].hidraw_path, "/dev/hidraw1");
}
