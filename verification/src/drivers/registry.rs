//! The known supplemental drivers, what each does with a report, and which
//! of them to start for the hidraw devices present.
use vstd::prelude::*;
use vstd::multiset::Multiset;
use crate::constants::KEY_MACRO_BASE;
use crate::drivers::bits::{bit_set, changes_spec, macro_keycode, macro_keycode_spec, ButtonChange, MaskTracker};
use crate::drivers::corsair::gkeys;
use crate::drivers::logitech::g502;
use crate::drivers::utechsmart::venus;
use crate::engine::processor::{EV_KEY, EV_SYN};
use crate::event_types::{DisplayEvent, EventHighlight};
use crate::hidraw::{devs_view, enumerate_by_vid, parsed_entries, sorted_list, HidRawDevice, HidRawReport};
use crate::text::{chars_of, dec_digits, push_decimal, string_from_chars};

verus! {

/// A driver for a device whose extra buttons arrive as hidraw reports.
pub trait SupplementalDriver {
    fn vendor_id(&self) -> u32;

    fn product_id(&self) -> u32;
}

/// The devices a supplemental driver exists for.
#[derive(Clone, Copy, Debug, PartialEq, Eq, Structural)]
pub enum DriverKind {
    /// Corsair K95 RGB G-keys.
    CorsairK95,
    /// Logitech G502 SE HERO extra buttons.
    G502,
    /// UTechSmart Venus side buttons.
    Venus,
}

impl DriverKind {
    pub open spec fn vid(self) -> u32 {
        match self {
            DriverKind::CorsairK95 => 0x1B1C,
            DriverKind::G502 => 0x046D,
            DriverKind::Venus => 0x04D9,
        }
    }

    pub open spec fn pid(self) -> u32 {
        match self {
            DriverKind::CorsairK95 => 0x1B11,
            DriverKind::G502 => 0xC08B,
            DriverKind::Venus => 0xFA58,
        }
    }

    /// How many buttons the device's mask covers.
    pub open spec fn button_count(self) -> u32 {
        match self {
            DriverKind::CorsairK95 => gkeys::GKEY_COUNT,
            DriverKind::G502 => g502::BUTTON_COUNT,
            DriverKind::Venus => venus::BUTTON_COUNT,
        }
    }

    /// The button mask a report carries, or `None` if it carries none.
    pub open spec fn decode_spec(self, interface: u8, data: Seq<u8>) -> Option<u32> {
        match self {
            DriverKind::CorsairK95 => gkeys::decode_spec(data),
            DriverKind::G502 => g502::decode_spec(interface, data),
            DriverKind::Venus => venus::decode_spec(interface, data),
        }
    }

    /// The event type shown for its buttons.
    pub open spec fn event_label(self) -> Seq<char> {
        match self {
            DriverKind::Venus => "SIDE_BUTTON"@,
            _ => "G_KEY"@,
        }
    }

    /// The name shown for button `i`: `G1…` on the K95, `KEY_MACRO1…` on
    /// the G502, `M1…` on the Venus.
    pub open spec fn code_name_spec(self, i: u32) -> Seq<char> {
        match self {
            DriverKind::CorsairK95 => gkeys::gkey_name(i as nat),
            DriverKind::G502 => "KEY_MACRO"@ + dec_digits((i + 1) as nat),
            DriverKind::Venus => seq!['M'] + dec_digits((i + 1) as nat),
        }
    }

    /// How many buttons the device's mask covers.
    pub fn buttons(&self) -> (r: u32)
        ensures
            r == self.button_count(),
    {
        match self {
            DriverKind::CorsairK95 => gkeys::GKEY_COUNT,
            DriverKind::G502 => g502::BUTTON_COUNT,
            DriverKind::Venus => venus::BUTTON_COUNT,
        }
    }

    /// Decodes a report of this device into its button mask.
    pub fn decode(&self, interface: u8, data: &[u8]) -> (r: Option<u32>)
        ensures
            r == self.decode_spec(interface, data@),
    {
        match self {
            DriverKind::CorsairK95 => gkeys::decode(data),
            DriverKind::G502 => g502::decode(interface, data),
            DriverKind::Venus => venus::decode(interface, data),
        }
    }

    /// The event type shown for the device's buttons.
    pub fn event_type(&self) -> (r: &'static str)
        ensures
            r@ == self.event_label(),
    {
        match self {
            DriverKind::Venus => "SIDE_BUTTON",
            _ => "G_KEY",
        }
    }

    /// The name shown for button `i`.
    pub fn code_name(&self, i: u32) -> (r: String)
        requires
            i < 32,
        ensures
            r@ == self.code_name_spec(i),
    {
        let mut out: Vec<char> = match self {
            DriverKind::CorsairK95 => chars_of("G"),
            DriverKind::G502 => chars_of("KEY_MACRO"),
            DriverKind::Venus => chars_of("M"),
        };
        proof {
            reveal_strlit("G");
            reveal_strlit("M");
        }
        push_decimal(&mut out, (i + 1) as u128, 0);
        proof {
            assert(out@ =~= self.code_name_spec(i));
        }
        string_from_chars(out.as_slice())
    }
}

impl SupplementalDriver for DriverKind {
    fn vendor_id(&self) -> (r: u32)
        ensures
            r == self.vid(),
    {
        match self {
            DriverKind::CorsairK95 => 0x1B1C,
            DriverKind::G502 => 0x046D,
            DriverKind::Venus => 0x04D9,
        }
    }

    fn product_id(&self) -> (r: u32)
        ensures
            r == self.pid(),
    {
        match self {
            DriverKind::CorsairK95 => 0x1B11,
            DriverKind::G502 => 0xC08B,
            DriverKind::Venus => 0xFA58,
        }
    }
}

// ── One report at a time ──────────────────────────────────────────────────────

/// An input event to inject through uinput.
#[derive(Clone, Copy, Debug, PartialEq, Eq, Structural)]
pub struct RawEvent {
    pub event_type: u16,
    pub code: u16,
    pub value: i32,
}

/// The key event that reports one button change.
pub open spec fn key_event(c: ButtonChange) -> RawEvent {
    RawEvent { event_type: EV_KEY, code: macro_keycode_spec(c.index) as u16, value: if c.pressed { 1 } else { 0 } }
}

/// The events injected for a list of changes: one key event each, then a
/// sync; nothing when there is no change or no injection.
pub open spec fn emitted(cs: Seq<ButtonChange>, inject: bool) -> Seq<RawEvent> {
    if !inject || cs.len() == 0 {
        seq![]
    } else {
        cs.map_values(|c: ButtonChange| key_event(c)).push(RawEvent { event_type: EV_SYN, code: 0, value: 0 })
    }
}

/// The button changes a report brings, given the previous mask.
pub open spec fn report_changes(kind: DriverKind, prev: u32, interface: u8, data: Seq<u8>) -> Seq<ButtonChange> {
    match kind.decode_spec(interface, data) {
        Some(m) => changes_spec(prev, m, kind.button_count() as nat),
        None => seq![],
    }
}

/// The monitor line for one button change of a report.
pub open spec fn shows_change(e: DisplayEvent, kind: DriverKind, c: ButtonChange, report: HidRawReport) -> bool {
    &&& e.elapsed == report.elapsed
    &&& e.device_name@ == report.device.name@
    &&& e.event_type@ == kind.event_label()
    &&& e.code_name@ == kind.code_name_spec(c.index)
    &&& e.value_str@ == (if c.pressed {
        "press"@
    } else {
        "release"@
    })
    &&& e.highlight == EventHighlight::Gaming
}

/// What one report makes a driver show and inject.
pub struct DriverOutput {
    pub display: Vec<DisplayEvent>,
    pub emit: Vec<RawEvent>,
}

/// A running driver: its device kind, the button mask last seen, and
/// whether a uinput device is there to inject into.
pub struct DriverSession {
    pub kind: DriverKind,
    pub tracker: MaskTracker,
    pub inject: bool,
}

impl DriverSession {
    /// A driver with no button held.
    pub fn new(kind: DriverKind, inject: bool) -> (s: Self)
        ensures
            s.kind == kind,
            s.inject == inject,
            s.tracker.prev_mask == 0,
    {
        DriverSession { kind, tracker: MaskTracker::new(), inject }
    }

    /// Handles one hidraw report: a report that decodes to a new mask gives
    /// one monitor event per changed button, in button order, and (when
    /// injecting) the matching key events followed by a sync.
    pub fn handle_report(&mut self, report: &HidRawReport) -> (out: DriverOutput)
        ensures
            final(self).kind == old(self).kind,
            final(self).inject == old(self).inject,
            final(self).tracker.prev_mask == match old(self).kind.decode_spec(
                report.device.interface,
                report.data@,
            ) {
                Some(m) => m,
                None => old(self).tracker.prev_mask,
            },
            out.display@.len() == report_changes(
                old(self).kind,
                old(self).tracker.prev_mask,
                report.device.interface,
                report.data@,
            ).len(),
            forall|j: int|
                0 <= j < out.display@.len() ==> shows_change(
                    #[trigger] out.display@[j],
                    old(self).kind,
                    report_changes(old(self).kind, old(self).tracker.prev_mask, report.device.interface, report.data@)[j],
                    *report,
                ),
            out.emit@ == emitted(
                report_changes(old(self).kind, old(self).tracker.prev_mask, report.device.interface, report.data@),
                old(self).inject,
            ),
    {
        let ghost cs = report_changes(self.kind, self.tracker.prev_mask, report.device.interface, report.data@);
        let decoded = self.kind.decode(report.device.interface, report.data.as_slice());
        let count = self.kind.buttons();
        let ghost prev = self.tracker.prev_mask;
        let changes = self.tracker.update(decoded, count);
        proof {
            if let Some(m) = decoded {
                crate::drivers::bits::lemma_changes_are_differences(prev, m, count as nat);
            }
        }
        assert(changes@ == cs);
        let mut display: Vec<DisplayEvent> = Vec::new();
        let mut emit: Vec<RawEvent> = Vec::new();
        let mut k: usize = 0;
        while k < changes.len()
            invariant
                k <= changes@.len(),
                changes@ == cs,
                count == self.kind.button_count(),
                forall|j: int| 0 <= j < cs.len() ==> (#[trigger] cs[j]).index < count,
                display@.len() == k,
                forall|j: int| 0 <= j < k ==> shows_change(#[trigger] display@[j], self.kind, cs[j], *report),
                emit@ == (if self.inject {
                    cs.take(k as int).map_values(|c: ButtonChange| key_event(c))
                } else {
                    Seq::<RawEvent>::empty()
                }),
            decreases changes@.len() - k,
        {
            let c = changes[k];
            let value_str = if c.pressed {
                String::from_str("press")
            } else {
                String::from_str("release")
            };
            let ev = DisplayEvent {
                elapsed: report.elapsed,
                device_name: report.device.name.clone(),
                event_type: self.kind.event_type(),
                code_name: self.kind.code_name(c.index),
                value_str,
                highlight: EventHighlight::Gaming,
            };
            display.push(ev);
            if self.inject {
                let code = macro_keycode(c.index);
                emit.push(RawEvent { event_type: EV_KEY, code, value: if c.pressed { 1 } else { 0 } });
                proof {
                    assert(cs.take(k + 1).map_values(|c: ButtonChange| key_event(c)) =~= cs.take(k as int).map_values(
                        |c: ButtonChange| key_event(c),
                    ).push(key_event(c)));
                }
            }
            k = k + 1;
        }
        if self.inject && emit.len() > 0 {
            emit.push(RawEvent { event_type: EV_SYN, code: 0, value: 0 });
        }
        proof {
            assert(cs.take(cs.len() as int) =~= cs);
        }
        DriverOutput { display, emit }
    }
}

/// A decoded mask has no bit at or above the device's button count.
pub proof fn lemma_decoded_within(kind: DriverKind, interface: u8, data: Seq<u8>)
    ensures
        kind.decode_spec(interface, data) matches Some(m) ==> m >> kind.button_count() == 0,
{
    match kind {
        DriverKind::CorsairK95 => {
            if let Some(m) = kind.decode_spec(interface, data) {
                let (b16, b17, b18) = (data[16], data[17], data[18]);
                assert(gkeys::gkey_mask(b16, b17, b18) >> 18u32 == 0) by (bit_vector);
            }
        },
        DriverKind::G502 => {
            crate::drivers::bits::lemma_slots_mask_below(
                data.subrange(3, if data.len() < 9 { data.len() as int } else { 9 }),
                g502::g502_buttons(),
                g502::BUTTON_COUNT,
            );
        },
        DriverKind::Venus => {
            crate::drivers::bits::lemma_slots_mask_below(data.subrange(2, 8), venus::venus_buttons(), venus::BUTTON_COUNT);
        },
    }
}

/// The presses and releases a report brings turn the previous button state
/// into the one the report carries.
pub proof fn law_report_changes_rebuild_mask(kind: DriverKind, prev: u32, interface: u8, data: Seq<u8>)
    requires
        prev >> kind.button_count() == 0,
        kind.decode_spec(interface, data) is Some,
    ensures
        crate::drivers::bits::apply_changes(prev, report_changes(kind, prev, interface, data)) == kind.decode_spec(
            interface,
            data,
        )->0,
{
    lemma_decoded_within(kind, interface, data);
    let m = kind.decode_spec(interface, data)->0;
    crate::drivers::bits::lemma_changes_restore(prev, m, kind.button_count());
}

/// The same report handed over twice changes nothing the second time: no
/// event is shown or injected.
pub proof fn law_repeated_report_is_quiet(kind: DriverKind, prev: u32, interface: u8, data: Seq<u8>, inject: bool)
    ensures
        ({
            let next = match kind.decode_spec(interface, data) {
                Some(m) => m,
                None => prev,
            };
            &&& report_changes(kind, next, interface, data).len() == 0
            &&& emitted(report_changes(kind, next, interface, data), inject).len() == 0
        }),
{
    if let Some(m) = kind.decode_spec(interface, data) {
        crate::drivers::bits::lemma_no_changes(m, kind.button_count() as nat);
    }
}

proof fn lemma_changes_below(prev: u32, mask: u32, count: nat, j: int)
    requires
        0 <= j < changes_spec(prev, mask, count).len(),
    ensures
        changes_spec(prev, mask, count)[j].index < count,
    decreases count,
{
    if count > 0 {
        let rest = changes_spec(prev, mask, (count - 1) as nat);
        if j < rest.len() {
            lemma_changes_below(prev, mask, (count - 1) as nat, j);
            if bit_set(mask ^ prev, (count - 1) as u32) {
                assert(changes_spec(prev, mask, count)[j] == rest[j]);
            }
        }
    }
}

/// Every button change a report brings is a button the device has, injected
/// as that button's macro key (`KEY_MACRO1` for the first button), down when
/// pressed and up when released; one sync follows the last of them.
pub proof fn law_buttons_become_macro_keys(kind: DriverKind, prev: u32, interface: u8, data: Seq<u8>, j: int)
    requires
        0 <= j < report_changes(kind, prev, interface, data).len(),
    ensures
        ({
            let cs = report_changes(kind, prev, interface, data);
            let out = emitted(cs, true);
            &&& cs[j].index < kind.button_count()
            &&& out.len() == cs.len() + 1
            &&& out[j] == (RawEvent {
                event_type: EV_KEY,
                code: (KEY_MACRO_BASE + cs[j].index) as u16,
                value: if cs[j].pressed {
                    1i32
                } else {
                    0i32
                },
            })
            &&& out.last() == (RawEvent { event_type: EV_SYN, code: 0, value: 0 })
        }),
{
    let m = kind.decode_spec(interface, data)->0;
    lemma_changes_below(prev, m, kind.button_count() as nat, j);
    let cs = report_changes(kind, prev, interface, data);
    assert(cs[j].index < 32);
    assert(cs[j].index % 0x10000 == cs[j].index);
}

// ── Which drivers to start ────────────────────────────────────────────────────

/// The drivers started with a session: the Corsair ones, then the UTechSmart
/// ones.
pub fn supplemental_drivers() -> (r: Vec<DriverKind>)
    ensures
        r@ == seq![DriverKind::CorsairK95, DriverKind::Venus],
{
    let mut r = crate::drivers::corsair::registered_drivers();
    let more = crate::drivers::utechsmart::registered_drivers();
    let mut k: usize = 0;
    while k < more.len()
        invariant
            k <= more@.len(),
            more@ == seq![DriverKind::Venus],
            r@ == seq![DriverKind::CorsairK95] + more@.take(k as int),
        decreases more@.len() - k,
    {
        r.push(more[k]);
        proof {
            assert(more@.take(k + 1) =~= more@.take(k as int).push(more@[k as int]));
        }
        k = k + 1;
    }
    proof {
        assert(more@.take(1) =~= more@);
    }
    r
}

/// The vendor ids of the drivers, each once, in order of first appearance.
pub open spec fn first_vendor_ids(ds: Seq<DriverKind>) -> Seq<u32>
    decreases ds.len(),
{
    if ds.len() == 0 {
        seq![]
    } else {
        let rest = first_vendor_ids(ds.drop_last());
        if rest.contains(ds.last().vid()) {
            rest
        } else {
            rest.push(ds.last().vid())
        }
    }
}

proof fn lemma_first_vendor_ids(ds: Seq<DriverKind>)
    ensures
        forall|k: int| 0 <= k < ds.len() ==> first_vendor_ids(ds).contains(#[trigger] ds[k].vid()),
    decreases ds.len(),
{
    if ds.len() > 0 {
        let init = ds.drop_last();
        lemma_first_vendor_ids(init);
        let rest = first_vendor_ids(init);
        let r = first_vendor_ids(ds);
        assert forall|k: int| 0 <= k < ds.len() implies r.contains(#[trigger] ds[k].vid()) by {
            if k < init.len() {
                assert(init[k] == ds[k]);
                let w = choose|w: int| 0 <= w < rest.len() && rest[w] == init[k].vid();
                if !rest.contains(ds.last().vid()) {
                    assert(r[w] == rest[w]);
                }
            } else if !rest.contains(ds.last().vid()) {
                assert(r[rest.len() as int] == ds.last().vid());
            }
        }
    }
}

fn contains_u32(v: &Vec<u32>, x: u32) -> (r: bool)
    ensures
        r == v@.contains(x),
{
    let mut k: usize = 0;
    while k < v.len()
        invariant
            k <= v@.len(),
            forall|j: int| 0 <= j < k ==> v@[j] != x,
        decreases v@.len() - k,
    {
        if v[k] == x {
            return true;
        }
        k = k + 1;
    }
    false
}

/// The vendor ids of the drivers, each once, so that hidraw is listed once
/// per vendor.
pub fn unique_vendor_ids(drivers: &Vec<DriverKind>) -> (r: Vec<u32>)
    ensures
        r@ == first_vendor_ids(drivers@),
{
    let mut r: Vec<u32> = Vec::new();
    let mut k: usize = 0;
    while k < drivers.len()
        invariant
            k <= drivers@.len(),
            r@ == first_vendor_ids(drivers@.take(k as int)),
        decreases drivers@.len() - k,
    {
        proof {
            let t = drivers@.take(k + 1);
            assert(t.drop_last() =~= drivers@.take(k as int));
            assert(t.last() == drivers@[k as int]);
        }
        let vid = drivers[k].vendor_id();
        if !contains_u32(&r, vid) {
            r.push(vid);
        }
        k = k + 1;
    }
    proof {
        assert(drivers@.take(drivers@.len() as int) =~= drivers@);
    }
    r
}

/// A driver to start, with the hidraw devices it serves.
pub struct DriverLaunch {
    pub kind: DriverKind,
    pub devices: Vec<HidRawDevice>,
}

/// The device records a driver serves: its vendor and product id.
pub open spec fn serves(d: DriverKind) -> spec_fn((Seq<char>, Seq<char>, u32, u32, u8)) -> bool {
    |x: (Seq<char>, Seq<char>, u32, u32, u8)| x.2 == d.vid() && x.3 == d.pid()
}

/// The hidraw devices among the entries (node name, uevent text) that a
/// driver serves.
pub open spec fn devices_for(d: DriverKind, entries: Seq<(String, String)>) -> Multiset<(Seq<char>, Seq<char>, u32, u32, u8)> {
    parsed_entries(entries, Some(d.vid())).to_multiset().filter(serves(d))
}

/// The drivers, in order, that serve at least one device.
pub open spec fn launched(ds: Seq<DriverKind>, entries: Seq<(String, String)>) -> Seq<DriverKind>
    decreases ds.len(),
{
    if ds.len() == 0 {
        seq![]
    } else {
        let rest = launched(ds.drop_last(), entries);
        if devices_for(ds.last(), entries).len() > 0 {
            rest.push(ds.last())
        } else {
            rest
        }
    }
}

/// The kinds of a launch list.
pub open spec fn launch_kinds(ls: Seq<DriverLaunch>) -> Seq<DriverKind> {
    ls.map_values(|l: DriverLaunch| l.kind)
}

/// The devices of a list that driver `d` serves, in order.
pub open spec fn served_in(d: DriverKind, s: Seq<(Seq<char>, Seq<char>, u32, u32, u8)>) -> Seq<(Seq<char>, Seq<char>, u32, u32, u8)>
    decreases s.len(),
{
    if s.len() == 0 {
        seq![]
    } else if s.last().2 == d.vid() && s.last().3 == d.pid() {
        served_in(d, s.drop_last()).push(s.last())
    } else {
        served_in(d, s.drop_last())
    }
}

/// The devices a started driver gets, in order: those it serves among its
/// vendor's hidraw devices as they are listed (by vendor id, product id and
/// interface).
pub open spec fn launch_devices(d: DriverKind, entries: Seq<(String, String)>) -> Seq<(Seq<char>, Seq<char>, u32, u32, u8)> {
    served_in(d, sorted_list(parsed_entries(entries, Some(d.vid()))))
}

/// The devices of `block` that driver `d` serves, in order.
fn served_devices(d: DriverKind, block: &Vec<HidRawDevice>) -> (r: Vec<HidRawDevice>)
    ensures
        devs_view(r@).to_multiset() == devs_view(block@).to_multiset().filter(serves(d)),
        devs_view(r@) == served_in(d, devs_view(block@)),
{
    let vid = d.vendor_id();
    let pid = d.product_id();
    let mut r: Vec<HidRawDevice> = Vec::new();
    let mut k: usize = 0;
    proof {
        assert(devs_view(r@) =~= Seq::empty());
        assert(devs_view(block@.take(0)) =~= Seq::empty());
        devs_view(r@).to_multiset_ensures();
        devs_view(block@.take(0)).to_multiset_ensures();
        assert(devs_view(r@).to_multiset() =~= devs_view(block@.take(0)).to_multiset().filter(serves(d)));
    }
    while k < block.len()
        invariant
            k <= block@.len(),
            vid == d.vid(),
            pid == d.pid(),
            devs_view(r@).to_multiset() == devs_view(block@.take(k as int)).to_multiset().filter(serves(d)),
            devs_view(r@) == served_in(d, devs_view(block@.take(k as int))),
        decreases block@.len() - k,
    {
        let ghost before = devs_view(r@);
        let b = &block[k];
        proof {
            assert(devs_view(block@.take(k + 1)) =~= devs_view(block@.take(k as int)).push(b@));
            assert(devs_view(block@.take(k + 1)).drop_last() =~= devs_view(block@.take(k as int)));
            devs_view(block@.take(k as int)).to_multiset_ensures();
            before.to_multiset_ensures();
        }
        if b.vid == vid && b.pid == pid {
            r.push(b.duplicate());
            proof {
                assert(devs_view(r@) =~= before.push(b@));
                assert(devs_view(r@).to_multiset() =~= devs_view(block@.take(k + 1)).to_multiset().filter(serves(d)));
            }
        } else {
            proof {
                assert(devs_view(r@).to_multiset() =~= devs_view(block@.take(k + 1)).to_multiset().filter(serves(d)));
            }
        }
        k = k + 1;
    }
    proof {
        assert(block@.take(block@.len() as int) =~= block@);
    }
    r
}

/// Which of `drivers` to start for the hidraw entries (node name, uevent
/// text), each with the devices it serves; hidraw is listed once per
/// vendor, and a driver that serves no device is not started.
pub fn plan_drivers(drivers: &Vec<DriverKind>, entries: &Vec<(String, String)>) -> (r: Vec<DriverLaunch>)
    ensures
        launch_kinds(r@) == launched(drivers@, entries@),
        forall|j: int|
            0 <= j < r@.len() ==> devs_view((#[trigger] r@[j]).devices@).to_multiset() == devices_for(
                r@[j].kind,
                entries@,
            ),
        forall|j: int| 0 <= j < r@.len() ==> devs_view((#[trigger] r@[j]).devices@) == launch_devices(r@[j].kind, entries@),
{
    let vids = unique_vendor_ids(drivers);
    let mut blocks: Vec<Vec<HidRawDevice>> = Vec::new();
    let mut i: usize = 0;
    while i < vids.len()
        invariant
            i <= vids@.len(),
            blocks@.len() == i,
            forall|j: int|
                0 <= j < i ==> devs_view((#[trigger] blocks@[j])@).to_multiset() == parsed_entries(
                    entries@,
                    Some(vids@[j]),
                ).to_multiset(),
            forall|j: int| 0 <= j < i ==> devs_view((#[trigger] blocks@[j])@) == sorted_list(parsed_entries(entries@, Some(vids@[j]))),
        decreases vids@.len() - i,
    {
        blocks.push(enumerate_by_vid(entries, vids[i]));
        i = i + 1;
    }
    proof {
        lemma_first_vendor_ids(drivers@);
    }
    let mut r: Vec<DriverLaunch> = Vec::new();
    let mut k: usize = 0;
    while k < drivers.len()
        invariant
            k <= drivers@.len(),
            vids@ == first_vendor_ids(drivers@),
            blocks@.len() == vids@.len(),
            forall|j: int|
                0 <= j < vids@.len() ==> devs_view((#[trigger] blocks@[j])@).to_multiset() == parsed_entries(
                    entries@,
                    Some(vids@[j]),
                ).to_multiset(),
            forall|j: int|
                0 <= j < vids@.len() ==> devs_view((#[trigger] blocks@[j])@) == sorted_list(parsed_entries(entries@, Some(vids@[j]))),
            forall|j: int| 0 <= j < r@.len() ==> devs_view((#[trigger] r@[j]).devices@) == launch_devices(r@[j].kind, entries@),
            forall|q: int| 0 <= q < drivers@.len() ==> vids@.contains(#[trigger] drivers@[q].vid()),
            launch_kinds(r@) == launched(drivers@.take(k as int), entries@),
            forall|j: int|
                0 <= j < r@.len() ==> devs_view((#[trigger] r@[j]).devices@).to_multiset() == devices_for(
                    r@[j].kind,
                    entries@,
                ),
        decreases drivers@.len() - k,
    {
        let d = drivers[k];
        let vid = d.vendor_id();
        assert(vids@.contains(drivers@[k as int].vid()));
        let mut j: usize = 0;
        while j < vids.len() && vids[j] != vid
            invariant
                j <= vids@.len(),
                vids@.contains(vid),
                forall|q: int| 0 <= q < j ==> vids@[q] != vid,
            decreases vids@.len() - j,
        {
            j = j + 1;
        }
        let devices = served_devices(d, &blocks[j]);
        assert(devs_view(devices@) == launch_devices(d, entries@));
        let ghost ls = r@;
        proof {
            let t = drivers@.take(k + 1);
            assert(t.drop_last() =~= drivers@.take(k as int));
            assert(t.last() == d);
            assert(devs_view(devices@).to_multiset() =~= devices_for(d, entries@));
            devs_view(devices@).to_multiset_ensures();
        }
        if devices.len() > 0 {
            r.push(DriverLaunch { kind: d, devices });
            proof {
                assert(launch_kinds(r@) =~= launch_kinds(ls).push(d));
                assert forall|q: int| 0 <= q < r@.len() implies devs_view((#[trigger] r@[q]).devices@).to_multiset()
                    == devices_for(r@[q].kind, entries@) by {
                    if q < ls.len() {
                        assert(r@[q] == ls[q]);
                    }
                }
                assert forall|q: int| 0 <= q < r@.len() implies devs_view((#[trigger] r@[q]).devices@) == launch_devices(r@[q].kind, entries@) by {
                    if q < ls.len() {
                        assert(r@[q] == ls[q]);
                    }
                }
            }
        }
        k = k + 1;
    }
    proof {
        assert(drivers@.take(drivers@.len() as int) =~= drivers@);
    }
    r
}

/// Which of the session's supplemental drivers to start for the hidraw
/// entries (node name, uevent text), each with the devices it serves.
pub fn start_supplemental_drivers(entries: &Vec<(String, String)>) -> (r: Vec<DriverLaunch>)
    ensures
        launch_kinds(r@) == launched(seq![DriverKind::CorsairK95, DriverKind::Venus], entries@),
        forall|j: int|
            0 <= j < r@.len() ==> devs_view((#[trigger] r@[j]).devices@).to_multiset() == devices_for(
                r@[j].kind,
                entries@,
            ),
        forall|j: int| 0 <= j < r@.len() ==> devs_view((#[trigger] r@[j]).devices@) == launch_devices(r@[j].kind, entries@),
{
    let drivers = supplemental_drivers();
    plan_drivers(&drivers, entries)
}

} // verus!
