//! Extra buttons of the Logitech G502 SE HERO, which its interface 1 sends
//! as keyboard reports.
use vstd::prelude::*;
use crate::drivers::registry::{DriverKind, SupplementalDriver};
use crate::drivers::bits::{macro_keycode, macro_keycode_spec, slots_mask};

verus! {

/// Number of extra buttons decoded on the G502.
pub const BUTTON_COUNT: u32 = 2;

/// KEY_MACRO1 + `button_index`.
pub fn keycode(button_index: u32) -> (r: u16)
    requires
        macro_keycode_spec(button_index) <= u16::MAX,
    ensures
        r == macro_keycode_spec(button_index),
{
    macro_keycode(button_index)
}

/// The button whose HID keycode this is: 0x06 for the rear button (next to
/// left click), 0x19 for the forward one. Both send modifier 0x01 (Left
/// Ctrl); they differ only in the keycode.
pub open spec fn g502_button(code: u8) -> Option<u32> {
    if code == 0x06 {
        Some(0)
    } else if code == 0x19 {
        Some(1)
    } else {
        None
    }
}

pub open spec fn g502_buttons() -> spec_fn(u8) -> Option<u32> {
    |c: u8| g502_button(c)
}

/// Looks a keycode up in the button table.
fn button_for(code: u8) -> (r: Option<u32>)
    ensures
        r == g502_button(code),
{
    let map: [(u8, u32); 2] = [(0x06, 0), (0x19, 1)];
    let mut k: usize = 0;
    while k < 2
        invariant
            k <= 2,
            map@ == seq![(0x06u8, 0u32), (0x19u8, 1u32)],
            forall|j: int| 0 <= j < k ==> map@[j].0 != code,
        decreases 2 - k,
    {
        if map[k].0 == code {
            return Some(map[k].1);
        }
        k = k + 1;
    }
    None
}

/// Report layout (9 bytes, interface 1):
///   [0x01, modifier, 0x00, keycode, 0x00, 0x00, 0x00, 0x00, 0x00]
/// `None` unless the report comes from interface 1, has at least 4 bytes and
/// report ID 0x01; else the buttons named in bytes 3 to 8 (as far as the
/// report goes).
pub open spec fn decode_spec(interface: u8, data: Seq<u8>) -> Option<u32> {
    if interface != 1 || data.len() < 4 || data[0] != 0x01 {
        None
    } else {
        let end = if data.len() < 9 { data.len() } else { 9 };
        Some(slots_mask(data.subrange(3, end as int), g502_buttons()))
    }
}

/// Decodes a G502 SE HERO interface-1 keyboard report into a button bitmask
/// (bit N set if button N is pressed).
pub fn decode(interface: u8, data: &[u8]) -> (r: Option<u32>)
    ensures
        r == decode_spec(interface, data@),
{
    if interface != 1 || data.len() < 4 || data[0] != 0x01 {
        return None;
    }
    let end: usize = if data.len() < 9 { data.len() } else { 9 };
    let mut mask: u32 = 0;
    let mut k: usize = 3;
    while k < end
        invariant
            3 <= k <= end <= data@.len(),
            end <= 9,
            mask == slots_mask(data@.subrange(3, k as int), g502_buttons()),
        decreases end - k,
    {
        let byte = data[k];
        proof {
            let s = data@.subrange(3, k + 1);
            assert(s.drop_last() =~= data@.subrange(3, k as int));
            assert(s.last() == byte);
        }
        if byte != 0 {
            match button_for(byte) {
                Some(idx) => {
                    mask = mask | (1u32 << idx);
                },
                None => {},
            }
        }
        k = k + 1;
    }
    Some(mask)
}

/// The Logitech G502 SE HERO (vendor 0x046D, product 0xC08B).
pub struct G502Driver;

impl G502Driver {
    /// The device kind this driver handles.
    pub fn kind(&self) -> (r: DriverKind)
        ensures
            r == DriverKind::G502,
    {
        DriverKind::G502
    }
}

impl SupplementalDriver for G502Driver {
    fn vendor_id(&self) -> (r: u32)
        ensures
            r == DriverKind::G502.vid(),
    {
        0x046D
    }

    fn product_id(&self) -> (r: u32)
        ensures
            r == DriverKind::G502.pid(),
    {
        0xC08B
    }
}

} // verus!
