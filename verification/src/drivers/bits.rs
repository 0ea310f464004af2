//! Button bitmasks: bit `i` set means button `i` is held. What changed
//! between two masks becomes a list of presses and releases, in button order.
use vstd::prelude::*;
use crate::constants::KEY_MACRO_BASE;

verus! {

/// Bit `i` of `mask` is set.
pub open spec fn bit_set(mask: u32, i: u32) -> bool {
    (mask >> i) & 1u32 == 1u32
}

/// Testing with a one-bit mask reads bit `i`.
pub proof fn lemma_bit_test(m: u32, i: u32)
    by (bit_vector)
    requires
        i < 32,
    ensures
        (m & (1u32 << i) != 0u32) == bit_set(m, i),
{
}

/// Setting bit `k` changes bit `k` alone.
pub proof fn lemma_bit_or(m: u32, k: u32, i: u32)
    by (bit_vector)
    requires
        k < 32,
        i < 32,
    ensures
        bit_set(m | (1u32 << k), i) == (bit_set(m, i) || i == k),
{
}

/// The empty mask has no bit set.
pub proof fn lemma_bit_zero(i: u32)
    by (bit_vector)
    ensures
        !bit_set(0u32, i),
{
}

/// One button that went down (`pressed`) or up.
#[derive(Clone, Copy, Debug, PartialEq, Eq, Structural)]
pub struct ButtonChange {
    pub index: u32,
    pub pressed: bool,
}

/// The buttons below `count` whose bit differs between `prev` and `mask`, in
/// increasing order, each with its state in `mask`.
pub open spec fn changes_spec(prev: u32, mask: u32, count: nat) -> Seq<ButtonChange>
    decreases count,
{
    if count == 0 {
        seq![]
    } else {
        let i = (count - 1) as u32;
        let rest = changes_spec(prev, mask, (count - 1) as nat);
        if bit_set(mask ^ prev, i) {
            rest.push(ButtonChange { index: i, pressed: bit_set(mask, i) })
        } else {
            rest
        }
    }
}

/// Lists the buttons below `count` that changed from `prev` to `mask`.
pub fn mask_changes(prev: u32, mask: u32, count: u32) -> (r: Vec<ButtonChange>)
    requires
        count <= 32,
    ensures
        r@ == changes_spec(prev, mask, count as nat),
{
    let changed = mask ^ prev;
    let mut r: Vec<ButtonChange> = Vec::new();
    let mut i: u32 = 0;
    while i < count
        invariant
            i <= count <= 32,
            changed == mask ^ prev,
            r@ == changes_spec(prev, mask, i as nat),
        decreases count - i,
    {
        proof {
            lemma_bit_test(changed, i);
            lemma_bit_test(mask, i);
        }
        if changed & (1u32 << i) != 0 {
            let pressed = mask & (1u32 << i) != 0;
            r.push(ButtonChange { index: i, pressed });
        }
        i = i + 1;
    }
    r
}

/// Equal masks have no changes.
pub proof fn lemma_no_changes(m: u32, count: nat)
    ensures
        changes_spec(m, m, count) == Seq::<ButtonChange>::empty(),
    decreases count,
{
    if count > 0 {
        lemma_no_changes(m, (count - 1) as nat);
        assert(m ^ m == 0u32) by (bit_vector);
        lemma_bit_zero((count - 1) as u32);
    }
}

/// `m` with bit `k` set (`pressed`) or cleared.
pub open spec fn apply_bit(m: u32, k: u32, pressed: bool) -> u32 {
    if pressed {
        m | (1u32 << k)
    } else {
        m & !(1u32 << k)
    }
}

/// `m` after the changes, applied in order.
pub open spec fn apply_changes(m: u32, cs: Seq<ButtonChange>) -> u32
    decreases cs.len(),
{
    if cs.len() == 0 {
        m
    } else {
        apply_bit(apply_changes(m, cs.drop_last()), cs.last().index, cs.last().pressed)
    }
}

/// The bits below `k`.
pub open spec fn low_bits(k: u32) -> u32 {
    ((1u32 << k) - 1u32) as u32
}

/// The bits of `mask` below `k` and those of `prev` from `k` up.
pub open spec fn blend(prev: u32, mask: u32, k: u32) -> u32 {
    (mask & low_bits(k)) | (prev & !low_bits(k))
}

proof fn lemma_blend_step(prev: u32, mask: u32, k: u32)
    by (bit_vector)
    requires
        k < 31,
    ensures
        bit_set(mask ^ prev, k) ==> apply_bit(blend(prev, mask, k), k, bit_set(mask, k)) == blend(
            prev,
            mask,
            (k + 1) as u32,
        ),
        !bit_set(mask ^ prev, k) ==> blend(prev, mask, k) == blend(prev, mask, (k + 1) as u32),
{
}

proof fn lemma_blend_ends(prev: u32, mask: u32, k: u32)
    by (bit_vector)
    requires
        k < 32,
    ensures
        blend(prev, mask, 0) == prev,
        prev >> k == mask >> k ==> blend(prev, mask, k) == mask,
{
}

proof fn lemma_changes_blend(prev: u32, mask: u32, count: u32)
    requires
        count < 32,
    ensures
        apply_changes(prev, changes_spec(prev, mask, count as nat)) == blend(prev, mask, count),
    decreases count,
{
    lemma_blend_ends(prev, mask, 0);
    if count > 0 {
        let k = (count - 1) as u32;
        lemma_changes_blend(prev, mask, k);
        lemma_blend_step(prev, mask, k);
        let cs = changes_spec(prev, mask, count as nat);
        if bit_set(mask ^ prev, k) {
            assert(cs.drop_last() == changes_spec(prev, mask, k as nat));
        }
    }
}

/// Applying the reported presses and releases to the previous mask gives
/// the new one, when the two agree on the bits at and above `count`.
pub proof fn lemma_changes_restore(prev: u32, mask: u32, count: u32)
    requires
        count < 32,
        prev >> count == mask >> count,
    ensures
        apply_changes(prev, changes_spec(prev, mask, count as nat)) == mask,
{
    lemma_changes_blend(prev, mask, count);
    lemma_blend_ends(prev, mask, count);
}

/// Every reported change is a button below `count` whose bit differs, with
/// its new state; the list is in increasing button order.
pub proof fn lemma_changes_are_differences(prev: u32, mask: u32, count: nat)
    requires
        count <= 32,
    ensures
        forall|j: int|
            0 <= j < changes_spec(prev, mask, count).len() ==> {
                let c = #[trigger] changes_spec(prev, mask, count)[j];
                &&& c.index < count
                &&& bit_set(mask ^ prev, c.index)
                &&& c.pressed == bit_set(mask, c.index)
            },
        forall|a: int, b: int|
            0 <= a < b < changes_spec(prev, mask, count).len() ==> changes_spec(prev, mask, count)[a].index
                < changes_spec(prev, mask, count)[b].index,
    decreases count,
{
    if count > 0 {
        let k = (count - 1) as u32;
        lemma_changes_are_differences(prev, mask, k as nat);
        let rest = changes_spec(prev, mask, k as nat);
        let cs = changes_spec(prev, mask, count);
        if bit_set(mask ^ prev, k) {
            assert(cs == rest.push(ButtonChange { index: k, pressed: bit_set(mask, k) }));
            assert forall|j: int| 0 <= j < cs.len() implies {
                let c = #[trigger] cs[j];
                &&& c.index < count
                &&& bit_set(mask ^ prev, c.index)
                &&& c.pressed == bit_set(mask, c.index)
            } by {
                if j < rest.len() {
                    assert(cs[j] == rest[j]);
                }
            }
            assert forall|a: int, b: int| 0 <= a < b < cs.len() implies cs[a].index < cs[b].index by {
                assert(cs[a] == rest[a]);
                if b < rest.len() {
                    assert(cs[b] == rest[b]);
                } else {
                    assert(rest[a].index < k);
                }
            }
        }
    }
}

/// The button mask of a keyboard-style report: for each slot byte that
/// names a button, that button's bit.
pub open spec fn slots_mask(slots: Seq<u8>, button: spec_fn(u8) -> Option<u32>) -> u32
    decreases slots.len(),
{
    if slots.len() == 0 {
        0
    } else {
        let m = slots_mask(slots.drop_last(), button);
        match button(slots.last()) {
            Some(i) => m | (1u32 << i),
            None => m,
        }
    }
}

/// A button's bit is set exactly when some slot names it.
pub proof fn lemma_slots_mask_bits(slots: Seq<u8>, button: spec_fn(u8) -> Option<u32>, i: u32)
    requires
        forall|c: u8| #[trigger] button(c) matches Some(k) ==> k < 32,
        i < 32,
    ensures
        bit_set(slots_mask(slots, button), i) <==> exists|j: int|
            0 <= j < slots.len() && #[trigger] button(slots[j]) == Some(i),
    decreases slots.len(),
{
    if slots.len() == 0 {
        lemma_bit_zero(i);
    } else {
        let init = slots.drop_last();
        lemma_slots_mask_bits(init, button, i);
        let m = slots_mask(init, button);
        let last = slots.len() - 1;
        if let Some(k) = button(slots.last()) {
            lemma_bit_or(m, k, i);
        }
        if exists|j: int| 0 <= j < init.len() && #[trigger] button(init[j]) == Some(i) {
            let j = choose|j: int| 0 <= j < init.len() && #[trigger] button(init[j]) == Some(i);
            assert(slots[j] == init[j]);
        }
        if exists|j: int| 0 <= j < slots.len() && #[trigger] button(slots[j]) == Some(i) {
            let j = choose|j: int| 0 <= j < slots.len() && #[trigger] button(slots[j]) == Some(i);
            if j < last {
                assert(init[j] == slots[j]);
            }
        }
    }
}

proof fn lemma_or_below(m: u32, k: u32, c: u32)
    by (bit_vector)
    requires
        k < c,
        c < 32,
        m >> c == 0,
    ensures
        (m | (1u32 << k)) >> c == 0,
{
}

/// When every button index is below `c`, so is every bit of the mask.
pub proof fn lemma_slots_mask_below(slots: Seq<u8>, button: spec_fn(u8) -> Option<u32>, c: u32)
    requires
        c < 32,
        forall|code: u8| #[trigger] button(code) matches Some(k) ==> k < c,
    ensures
        slots_mask(slots, button) >> c == 0,
    decreases slots.len(),
{
    if slots.len() == 0 {
        assert(0u32 >> c == 0) by (bit_vector);
    } else {
        lemma_slots_mask_below(slots.drop_last(), button, c);
        if let Some(k) = button(slots.last()) {
            lemma_or_below(slots_mask(slots.drop_last(), button), k, c);
        }
    }
}

/// Follows the button mask of one device between reports.
pub struct MaskTracker {
    pub prev_mask: u32,
}

impl MaskTracker {
    /// No button held.
    pub fn new() -> (t: Self)
        ensures
            t.prev_mask == 0,
    {
        MaskTracker { prev_mask: 0 }
    }

    /// Takes the decoded mask of the next report (`None` for a report that
    /// is not a button report, which changes nothing) and returns the buttons
    /// below `count` that changed.
    pub fn update(&mut self, decoded: Option<u32>, count: u32) -> (r: Vec<ButtonChange>)
        requires
            count <= 32,
        ensures
            match decoded {
                None => final(self).prev_mask == old(self).prev_mask && r@ == Seq::<ButtonChange>::empty(),
                Some(m) => final(self).prev_mask == m && r@ == changes_spec(old(self).prev_mask, m, count as nat),
            },
    {
        match decoded {
            None => Vec::new(),
            Some(m) => {
                if m == self.prev_mask {
                    proof {
                        lemma_no_changes(m, count as nat);
                    }
                    return Vec::new();
                }
                let r = mask_changes(self.prev_mask, m, count);
                self.prev_mask = m;
                r
            },
        }
    }
}

/// The key code of macro key `index + 1`: `KEY_MACRO_BASE` plus the low
/// 16 bits of `index`.
pub open spec fn macro_keycode_spec(index: u32) -> int {
    KEY_MACRO_BASE + (index % 0x10000)
}

/// `KEY_MACRO_BASE + index as u16`.
pub fn macro_keycode(index: u32) -> (r: u16)
    requires
        macro_keycode_spec(index) <= u16::MAX,
    ensures
        r == macro_keycode_spec(index),
{
    let low: u16 = (index % 0x10000) as u16;
    KEY_MACRO_BASE + low
}

} // verus!
