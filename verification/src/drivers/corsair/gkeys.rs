//! G-key reports of the Corsair K95 RGB.
use vstd::prelude::*;
use crate::drivers::bits::{bit_set, macro_keycode, macro_keycode_spec};
use crate::text::{dec_digits, push_decimal, string_from_chars};

verus! {

/// Report ID used by the K95 RGB (PID 0x1B11) G-key HID reports.
pub const K95_REPORT_ID: u8 = 0x03;

/// Total number of G-keys on the K95 RGB.
pub const GKEY_COUNT: u32 = 18;

/// The G-key mask of a report whose bytes 16, 17 and 18 are given:
/// byte 16 → G1–G8 (bits 0–7), bits 0–1 of byte 17 → G9–G10 (bits 8–9),
/// byte 18 → G11–G18 (bits 10–17).
pub open spec fn gkey_mask(b16: u8, b17: u8, b18: u8) -> u32 {
    (b16 as u32) | (((b17 & 0x03u8) as u32) << 8u32) | ((b18 as u32) << 10u32)
}

/// `None` unless the report has at least 19 bytes and starts with the
/// G-key report ID.
pub open spec fn decode_spec(data: Seq<u8>) -> Option<u32> {
    if data.len() < 19 || data[0] != K95_REPORT_ID {
        None
    } else {
        Some(gkey_mask(data[16], data[17], data[18]))
    }
}

/// Bit `i` of a byte.
pub open spec fn byte_bit(b: u8, i: u32) -> bool {
    (b >> i) & 1u8 == 1u8
}

/// G-key `i + 1` is held according to the layout bytes 16–18.
pub open spec fn gkey_held(b16: u8, b17: u8, b18: u8, i: u32) -> bool {
    if i < 8 {
        byte_bit(b16, i)
    } else if i < 10 {
        byte_bit(b17, (i - 8) as u32)
    } else if i < 18 {
        byte_bit(b18, (i - 10) as u32)
    } else {
        false
    }
}

/// Decodes a raw hidraw report into an 18-bit G-key pressed bitmask
/// (bit N-1 set → G-key N is held); `None` if it is not a G-key report.
pub fn decode(data: &[u8]) -> (r: Option<u32>)
    ensures
        r == decode_spec(data@),
{
    if data.len() < 19 || data[0] != K95_REPORT_ID {
        return None;
    }
    let b16 = data[16] as u32;
    let b17 = (data[17] & 0x03) as u32;
    let b18 = data[18] as u32;
    Some(b16 | (b17 << 8) | (b18 << 10))
}

/// Bit `i` of a decoded mask is set exactly when G-key `i + 1` is held;
/// no bit from 18 up is ever set.
pub proof fn lemma_gkey_bits(b16: u8, b17: u8, b18: u8, i: u32)
    by (bit_vector)
    requires
        i < 32,
    ensures
        bit_set(gkey_mask(b16, b17, b18), i) == gkey_held(b16, b17, b18, i),
{
}

/// `"G1"`, `"G2"`, … for G-key `i + 1`.
pub open spec fn gkey_name(i: nat) -> Seq<char> {
    seq!['G'] + dec_digits(i + 1)
}

/// Names of the G-keys among the first `k` whose bit is set, in order.
pub open spec fn held_names(mask: u32, k: nat) -> Seq<Seq<char>>
    decreases k,
{
    if k == 0 {
        seq![]
    } else {
        let rest = held_names(mask, (k - 1) as nat);
        if bit_set(mask, (k - 1) as u32) {
            rest.push(gkey_name((k - 1) as nat))
        } else {
            rest
        }
    }
}

proof fn lemma_held_names_len(mask: u32, k: nat)
    ensures
        held_names(mask, k).len() <= k,
    decreases k,
{
    if k > 0 {
        lemma_held_names_len(mask, (k - 1) as nat);
    }
}

/// The parts joined with `'+'` between them.
pub open spec fn join_plus(parts: Seq<Seq<char>>) -> Seq<char>
    decreases parts.len(),
{
    if parts.len() == 0 {
        seq![]
    } else if parts.len() == 1 {
        parts[0]
    } else {
        join_plus(parts.drop_last()) + seq!['+'] + parts.last()
    }
}

/// An em dash for no key held, else the held G-keys joined with `'+'`.
pub open spec fn names_spec(mask: u32) -> Seq<char> {
    if mask == 0 {
        seq!['\u{2014}']
    } else {
        join_plus(held_names(mask, GKEY_COUNT as nat))
    }
}

/// Formats a G-key bitmask as a human-readable string ("G1", "G3+G5", "—").
pub fn names(mask: u32) -> (r: String)
    ensures
        r@ == names_spec(mask),
{
    let mut out: Vec<char> = Vec::new();
    if mask == 0 {
        out.push('\u{2014}');
        return string_from_chars(out.as_slice());
    }
    let mut count: usize = 0;
    let mut i: u32 = 0;
    proof {
        lemma_held_names_len(mask, 0);
    }
    while i < GKEY_COUNT
        invariant
            i <= GKEY_COUNT,
            count == held_names(mask, i as nat).len(),
            count <= i,
            out@ == join_plus(held_names(mask, i as nat)),
        decreases GKEY_COUNT - i,
    {
        let ghost before = held_names(mask, i as nat);
        proof {
            crate::drivers::bits::lemma_bit_test(mask, i);
        }
        if mask & (1u32 << i) != 0 {
            if count > 0 {
                out.push('+');
            }
            out.push('G');
            push_decimal(&mut out, (i + 1) as u128, 0);
            proof {
                let now = held_names(mask, (i + 1) as nat);
                assert(now == before.push(gkey_name(i as nat)));
                assert(now.drop_last() == before);
                if count == 0 {
                    assert(out@ =~= join_plus(now));
                } else {
                    assert(out@ =~= join_plus(now));
                }
            }
            count = count + 1;
        }
        i = i + 1;
    }
    string_from_chars(out.as_slice())
}

/// Linux key codes for G1–G18 (KEY_MACRO1–KEY_MACRO18, starting at 0x290).
pub fn keycode(gkey_index: u32) -> (r: u16)
    requires
        macro_keycode_spec(gkey_index) <= u16::MAX,
    ensures
        r == macro_keycode_spec(gkey_index),
{
    macro_keycode(gkey_index)
}

} // verus!
