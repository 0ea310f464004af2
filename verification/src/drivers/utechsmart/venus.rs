//! Side-button grid of the UTechSmart Venus, which its interface 1 sends as
//! keyboard reports.
use vstd::prelude::*;
use crate::drivers::registry::{DriverKind, SupplementalDriver};
use crate::drivers::bits::{macro_keycode, macro_keycode_spec, slots_mask};

verus! {

/// Number of programmable side buttons on the Venus.
pub const BUTTON_COUNT: u32 = 12;

/// Linux key codes for side buttons 1–12: button index 0–11 maps to
/// KEY_MACRO1–KEY_MACRO12.
pub fn keycode(button_index: u32) -> (r: u16)
    requires
        macro_keycode_spec(button_index) <= u16::MAX,
    ensures
        r == macro_keycode_spec(button_index),
{
    macro_keycode(button_index)
}

/// The HID keyboard keycodes the Venus reports for side buttons 1–12, in
/// button order.
pub open spec fn hid_keycodes() -> Seq<u8> {
    seq![0x1Eu8, 0x1F, 0x20, 0x21, 0x22, 0x23, 0x24, 0x25, 0x26, 0x27, 0x56, 0x57]
}

/// The button index whose keycode this is: 0x1E–0x27 are buttons 1–10,
/// 0x56 and 0x57 are buttons 11 and 12.
pub open spec fn venus_button(code: u8) -> Option<u32> {
    if 0x1E <= code <= 0x27 {
        Some((code - 0x1E) as u32)
    } else if code == 0x56 {
        Some(10)
    } else if code == 0x57 {
        Some(11)
    } else {
        None
    }
}

pub open spec fn venus_buttons() -> spec_fn(u8) -> Option<u32> {
    |c: u8| venus_button(c)
}

/// The position of a keycode in the table.
fn position(code: u8) -> (r: Option<u32>)
    ensures
        r == venus_button(code),
        r matches Some(i) ==> hid_keycodes()[i as int] == code,
{
    let table: [u8; 12] = [0x1E, 0x1F, 0x20, 0x21, 0x22, 0x23, 0x24, 0x25, 0x26, 0x27, 0x56, 0x57];
    let mut k: usize = 0;
    while k < 12
        invariant
            k <= 12,
            table@ == hid_keycodes(),
            forall|j: int| 0 <= j < k ==> table@[j] != code,
        decreases 12 - k,
    {
        if table[k] == code {
            return Some(k as u32);
        }
        k = k + 1;
    }
    None
}

/// Report layout (HID keyboard boot protocol, 8 bytes): byte 0 modifiers,
/// byte 1 reserved, bytes 2–7 up to six keycodes (0x00 = empty slot).
/// `None` unless the report comes from interface 1 and has at least 8
/// bytes; else the buttons named in bytes 2–7.
pub open spec fn decode_spec(interface: u8, data: Seq<u8>) -> Option<u32> {
    if interface != 1 || data.len() < 8 {
        None
    } else {
        Some(slots_mask(data.subrange(2, 8), venus_buttons()))
    }
}

/// Decodes a Venus interface-1 keyboard report into a 12-bit button bitmask
/// (bit N set if button N+1 is held).
pub fn decode(interface: u8, data: &[u8]) -> (r: Option<u32>)
    ensures
        r == decode_spec(interface, data@),
{
    if interface != 1 || data.len() < 8 {
        return None;
    }
    let mut mask: u32 = 0;
    let mut k: usize = 2;
    while k < 8
        invariant
            2 <= k <= 8 <= data@.len(),
            mask == slots_mask(data@.subrange(2, k as int), venus_buttons()),
        decreases 8 - k,
    {
        let hid_code = data[k];
        proof {
            let s = data@.subrange(2, k + 1);
            assert(s.drop_last() =~= data@.subrange(2, k as int));
            assert(s.last() == hid_code);
        }
        if hid_code != 0x00 {
            match position(hid_code) {
                Some(idx) => {
                    mask = mask | (1u32 << idx);
                },
                None => {},
            }
        }
        k = k + 1;
    }
    Some(mask)
}

/// The UTechSmart Venus (vendor 0x04D9, product 0xFA58).
pub struct VenusDriver;

impl VenusDriver {
    /// The device kind this driver handles.
    pub fn kind(&self) -> (r: DriverKind)
        ensures
            r == DriverKind::Venus,
    {
        DriverKind::Venus
    }
}

impl SupplementalDriver for VenusDriver {
    fn vendor_id(&self) -> (r: u32)
        ensures
            r == DriverKind::Venus.vid(),
    {
        0x04D9
    }

    fn product_id(&self) -> (r: u32)
        ensures
            r == DriverKind::Venus.pid(),
    {
        0xFA58
    }
}

} // verus!
