//! The key monitor's rules, apart from its window: which events it keeps
//! and shows, which one a single capture takes, and how much history it
//! holds.
use vstd::prelude::*;
use crate::devices::AccessStatus;
use crate::event_types::{as_nanos, duration_nanos, DisplayEvent};
use crate::hidraw::{HidRawDevice, HidRawReport};
use crate::drivers::corsair::gkeys;
use crate::text::{after_last, after_last_char, chars_eq, chars_of, dec_digits, extend_str, push_decimal, string_from_chars, zero_pad};
use std::time::Duration;

verus! {

/// Events kept in the continuous log.
pub const MAX_EVENTS: usize = 2000;

/// HID reports kept by the HID probe.
pub const MAX_HID_REPORTS: usize = 500;

/// Events taken from the channel per frame.
pub const DRAIN_BATCH: usize = 500;

/// HID reports taken from the channel per frame.
pub const HID_DRAIN_BATCH: usize = 200;

/// What the monitor shows.
#[derive(Clone, Copy, Debug, PartialEq, Eq, Structural)]
pub enum ViewMode {
    SingleCapture,
    ContinuousLog,
    HidProbe,
}

/// Where a single capture stands.
pub enum CaptureState {
    /// Waiting for the user to start a capture.
    Idle,
    /// Listening for the next key press.
    Capturing,
    /// The key press that was caught.
    Captured(DisplayEvent),
}

/// The monitor's state, apart from what only its window uses.
pub struct DebugView {
    pub events: Vec<DisplayEvent>,
    pub device_names: Vec<String>,
    pub paused: bool,
    pub hide_syn: bool,
    pub hide_rel: bool,
    pub log_auto_clear: bool,
    pub log_auto_clear_secs: u32,
    pub show_permission_popup: bool,
    pub no_devices: bool,
    pub view_mode: ViewMode,
    /// Device filter: empty means every device passes.
    pub selected_evdev: Vec<String>,
    pub hid_devices: Vec<HidRawDevice>,
    pub hid_reports: Vec<HidRawReport>,
    pub hid_probing: bool,
    pub capture: CaptureState,
    /// The continuous log pauses itself `log_auto_stop_secs` after it resumes.
    pub log_auto_stop: bool,
    pub log_auto_stop_secs: u32,
    /// When the running log pauses itself (nanoseconds since the monitor started).
    pub stop_deadline: Option<u128>,
    /// HID filter by hidraw path: empty means every device passes.
    pub selected_hid: Vec<String>,
    pub hid_paused: bool,
    pub hid_auto_clear: bool,
    pub hid_auto_clear_secs: u32,
}

/// The last `n` items (all of them when there are fewer).
pub open spec fn last_n<A>(s: Seq<A>, n: nat) -> Seq<A> {
    if s.len() > n {
        s.skip(s.len() - n)
    } else {
        s
    }
}

/// A key press: a kernel key event or a G-key, with value `press`.
pub open spec fn is_key_press(ev: DisplayEvent) -> bool {
    (ev.event_type@ == "EV_KEY"@ || ev.event_type@ == "G_KEY"@) && ev.value_str@ == "press"@
}

/// The position of the first key press.
pub open spec fn first_press(evs: Seq<DisplayEvent>) -> Option<int> {
    if exists|i: int| 0 <= i < evs.len() && is_key_press(#[trigger] evs[i]) {
        Some(choose|i: int| 0 <= i < evs.len() && is_key_press(#[trigger] evs[i]) && forall|j: int| 0 <= j < i ==> !is_key_press(#[trigger] evs[j]))
    } else {
        None
    }
}

/// The names of the selected devices.
pub open spec fn names_view(v: Seq<String>) -> Seq<Seq<char>> {
    v.map_values(|s: String| s@)
}

impl DebugView {
    /// Shown in the continuous log: SYN and REL events only when not hidden,
    /// and only the selected devices when some are selected.
    pub open spec fn shows(self, ev: DisplayEvent) -> bool {
        &&& !(self.hide_syn && ev.event_type@ == "EV_SYN"@)
        &&& !(self.hide_rel && ev.event_type@ == "EV_REL"@)
        &&& (self.selected_evdev@.len() == 0 || names_view(self.selected_evdev@).contains(ev.device_name@))
    }

    /// The monitor keeps at most MAX_EVENTS events and MAX_HID_REPORTS
    /// reports: every method keeps this.
    pub open spec fn bounded(self) -> bool {
        self.events@.len() <= MAX_EVENTS && self.hid_reports@.len() <= MAX_HID_REPORTS
    }

    /// The monitor as it opens: paused single capture hiding SYN and REL
    /// events, clearing the log after 30 s; the permission popup shows unless
    /// some event node can be opened, with the no-devices variant when there
    /// is none.
    pub fn new(access: AccessStatus, device_names: Vec<String>) -> (v: Self)
        ensures
            v.bounded(),
            v.show_permission_popup == (access != AccessStatus::Granted),
            v.no_devices == (access == AccessStatus::NoDevices),
            v.events@.len() == 0,
            v.device_names == device_names,
            v.paused,
            v.hide_syn,
            v.hide_rel,
            v.log_auto_clear,
            v.log_auto_clear_secs == 30,
            v.view_mode == ViewMode::SingleCapture,
            v.selected_evdev@.len() == 0,
            v.hid_devices@.len() == 0,
            v.hid_reports@.len() == 0,
            !v.hid_probing,
            v.capture is Idle,
            !v.log_auto_stop,
            v.log_auto_stop_secs == 10,
            v.stop_deadline is None,
            v.selected_hid@.len() == 0,
            !v.hid_paused,
            !v.hid_auto_clear,
            v.hid_auto_clear_secs == 30,
    {
        let (show_permission_popup, no_devices) = match access {
            AccessStatus::Granted => (false, false),
            AccessStatus::Denied => (true, false),
            AccessStatus::NoDevices => (true, true),
        };
        DebugView {
            events: Vec::new(),
            device_names,
            paused: true,
            hide_syn: true,
            hide_rel: true,
            log_auto_clear: true,
            log_auto_clear_secs: 30,
            show_permission_popup,
            no_devices,
            view_mode: ViewMode::SingleCapture,
            selected_evdev: Vec::new(),
            hid_devices: Vec::new(),
            hid_reports: Vec::new(),
            hid_probing: false,
            capture: CaptureState::Idle,
            log_auto_stop: false,
            log_auto_stop_secs: 10,
            stop_deadline: None,
            selected_hid: Vec::new(),
            hid_paused: false,
            hid_auto_clear: false,
            hid_auto_clear_secs: 30,
        }
    }

    /// Starts the HID probe on the devices found; with none it does not
    /// start. Returns whether readers should be started.
    pub fn start_hid_probe(&mut self, devs: Vec<HidRawDevice>) -> (r: bool)
        ensures
            old(self).bounded() ==> final(self).bounded(),
            r == (devs@.len() > 0),
            !r ==> *final(self) == *old(self),
            r ==> *final(self) == (DebugView {
                hid_devices: devs,
                hid_reports: final(self).hid_reports,
                hid_probing: true,
                ..*old(self)
            }) && final(self).hid_reports@.len() == 0,
    {
        if devs.len() == 0 {
            return false;
        }
        self.hid_devices = devs;
        self.hid_reports = Vec::new();
        self.hid_probing = true;
        true
    }

    /// Appends a batch of events (at most a drain's worth) to the log,
    /// keeping the last `MAX_EVENTS`.
    pub fn drain_channel(&mut self, batch: Vec<DisplayEvent>)
        ensures
            old(self).bounded() ==> final(self).bounded(),
            *final(self) == (DebugView { events: final(self).events, ..*old(self) }),
            final(self).events@ == last_n(old(self).events@ + batch@, MAX_EVENTS as nat),
            final(self).events@.len() <= MAX_EVENTS,
    {
        let mut all: Vec<DisplayEvent> = Vec::new();
        std::mem::swap(&mut all, &mut self.events);
        let ghost joined = all@ + batch@;
        let mut b = batch;
        all.append(&mut b);
        let excess: usize = if all.len() > MAX_EVENTS {
            all.len() - MAX_EVENTS
        } else {
            0
        };
        let mut k: usize = 0;
        while k < excess
            invariant
                k <= excess,
                excess <= joined.len(),
                all@ == joined.skip(k as int),
            decreases excess - k,
        {
            all.remove(0);
            assert(all@ =~= joined.skip(k + 1));
            k = k + 1;
        }
        self.events = all;
    }

    /// The first key press of a batch (evdev or G-key), which a single
    /// capture takes; the rest of the batch is dropped.
    pub fn drain_for_capture(batch: Vec<DisplayEvent>) -> (r: Option<DisplayEvent>)
        ensures
            match first_press(batch@) {
                Some(i) => r == Some(batch@[i]),
                None => r is None,
            },
    {
        let key = chars_of("EV_KEY");
        let gkey = chars_of("G_KEY");
        let press = chars_of("press");
        let mut i: usize = 0;
        while i < batch.len()
            invariant
                i <= batch@.len(),
                key@ == "EV_KEY"@,
                gkey@ == "G_KEY"@,
                press@ == "press"@,
                forall|j: int| 0 <= j < i ==> !is_key_press(#[trigger] batch@[j]),
            decreases batch@.len() - i,
        {
            let ev = &batch[i];
            let t = chars_of(ev.event_type);
            let v = chars_of(ev.value_str.as_str());
            if (chars_eq(t.as_slice(), key.as_slice()) || chars_eq(t.as_slice(), gkey.as_slice())) && chars_eq(
                v.as_slice(),
                press.as_slice(),
            ) {
                let mut b = batch;
                let found = b.remove(i);
                proof {
                    let w = choose|w: int|
                        0 <= w < batch@.len() && is_key_press(#[trigger] batch@[w]) && forall|j: int|
                            0 <= j < w ==> !is_key_press(#[trigger] batch@[j]);
                    assert(is_key_press(batch@[i as int]));
                    if w < i {
                        assert(!is_key_press(batch@[w]));
                    }
                    if w > i {
                        assert(!is_key_press(batch@[i as int]));
                    }
                }
                return Some(found);
            }
            i = i + 1;
        }
        None
    }

    /// Whether the continuous log shows an event.
    pub fn is_visible(&self, ev: &DisplayEvent) -> (r: bool)
        ensures
            r == self.shows(*ev),
    {
        let t = chars_of(ev.event_type);
        let syn = chars_of("EV_SYN");
        let rel = chars_of("EV_REL");
        if self.hide_syn && chars_eq(t.as_slice(), syn.as_slice()) {
            return false;
        }
        if self.hide_rel && chars_eq(t.as_slice(), rel.as_slice()) {
            return false;
        }
        if self.selected_evdev.len() == 0 {
            return true;
        }
        let name = chars_of(ev.device_name.as_str());
        let ghost nv = names_view(self.selected_evdev@);
        let mut i: usize = 0;
        while i < self.selected_evdev.len()
            invariant
                i <= self.selected_evdev@.len(),
                nv == names_view(self.selected_evdev@),
                name@ == ev.device_name@,
                !(self.hide_syn && ev.event_type@ == "EV_SYN"@),
                !(self.hide_rel && ev.event_type@ == "EV_REL"@),
                self.selected_evdev@.len() > 0,
                forall|j: int| 0 <= j < i ==> nv[j] != name@,
            decreases self.selected_evdev@.len() - i,
        {
            let s = chars_of(self.selected_evdev[i].as_str());
            if chars_eq(s.as_slice(), name.as_slice()) {
                assert(nv[i as int] == name@);
                assert(nv.contains(ev.device_name@));
                return true;
            }
            i = i + 1;
        }
        false
    }
}

/// An event is recent: no more than `secs` seconds older than `now`.
pub open spec fn recent(now: Duration, ev: DisplayEvent, secs: u32) -> bool {
    let n = duration_nanos(now);
    let e = duration_nanos(ev.elapsed);
    (if n >= e {
        n - e
    } else {
        0
    }) <= secs * 1_000_000_000
}

/// The events that are recent, in order.
pub open spec fn recent_events(evs: Seq<DisplayEvent>, now: Duration, secs: u32) -> Seq<DisplayEvent>
    decreases evs.len(),
{
    if evs.len() == 0 {
        seq![]
    } else if recent(now, evs.last(), secs) {
        recent_events(evs.drop_last(), now, secs).push(evs.last())
    } else {
        recent_events(evs.drop_last(), now, secs)
    }
}

proof fn lemma_recent_events(evs: Seq<DisplayEvent>, now: Duration, secs: u32)
    ensures
        recent_events(evs, now, secs).len() <= evs.len(),
        forall|i: int| 0 <= i < recent_events(evs, now, secs).len() ==> recent(now, #[trigger] recent_events(evs, now, secs)[i], secs),
    decreases evs.len(),
{
    if evs.len() > 0 {
        lemma_recent_events(evs.drop_last(), now, secs);
        let r = recent_events(evs.drop_last(), now, secs);
        if recent(now, evs.last(), secs) {
            assert forall|i: int| 0 <= i < r.push(evs.last()).len() implies recent(now, #[trigger] r.push(evs.last())[i], secs) by {
                if i < r.len() {
                    assert(r.push(evs.last())[i] == r[i]);
                }
            }
        }
    }
}

impl DebugView {
    /// Drops the events older than the auto-clear window before `now`.
    pub fn retain_recent(&mut self, now: Duration)
        ensures
            old(self).bounded() ==> final(self).bounded(),
            *final(self) == (DebugView { events: final(self).events, ..*old(self) }),
            final(self).events@ == recent_events(old(self).events@, now, old(self).log_auto_clear_secs),
            forall|i: int| 0 <= i < final(self).events@.len() ==> recent(now, #[trigger] final(self).events@[i], old(self).log_auto_clear_secs),
    {
        let secs = self.log_auto_clear_secs;
        let window: u128 = secs as u128 * 1_000_000_000;
        let now_ns = as_nanos(now);
        let mut all: Vec<DisplayEvent> = Vec::new();
        std::mem::swap(&mut all, &mut self.events);
        let ghost evs = all@;
        let mut kept: Vec<DisplayEvent> = Vec::new();
        let mut k: usize = 0;
        let n = all.len();
        while k < n
            invariant
                n == evs.len(),
                k <= n,
                all@ == evs.skip(k as int),
                kept@ == recent_events(evs.take(k as int), now, secs),
                window == secs * 1_000_000_000,
                now_ns == duration_nanos(now),
            decreases n - k,
        {
            let ev = all.remove(0);
            proof {
                assert(all@ =~= evs.skip(k + 1));
                let t = evs.take(k + 1);
                assert(t.drop_last() =~= evs.take(k as int));
                assert(t.last() == ev);
            }
            let e_ns = as_nanos(ev.elapsed);
            let age: u128 = if now_ns >= e_ns {
                now_ns - e_ns
            } else {
                0
            };
            if age <= window {
                kept.push(ev);
            }
            k = k + 1;
        }
        proof {
            assert(evs.take(n as int) =~= evs);
            lemma_recent_events(evs, now, secs);
        }
        self.events = kept;
    }
}

impl DebugView {
    /// Appends a batch of HID reports (at most a drain's worth), keeping the
    /// last `MAX_HID_REPORTS`.
    pub fn push_hid_reports(&mut self, batch: Vec<HidRawReport>)
        ensures
            old(self).bounded() ==> final(self).bounded(),
            *final(self) == (DebugView { hid_reports: final(self).hid_reports, ..*old(self) }),
            final(self).hid_reports@ == last_n(old(self).hid_reports@ + batch@, MAX_HID_REPORTS as nat),
            final(self).hid_reports@.len() <= MAX_HID_REPORTS,
    {
        let mut all: Vec<HidRawReport> = Vec::new();
        std::mem::swap(&mut all, &mut self.hid_reports);
        let ghost joined = all@ + batch@;
        let mut b = batch;
        all.append(&mut b);
        let excess: usize = if all.len() > MAX_HID_REPORTS {
            all.len() - MAX_HID_REPORTS
        } else {
            0
        };
        let mut k: usize = 0;
        while k < excess
            invariant
                k <= excess,
                excess <= joined.len(),
                all@ == joined.skip(k as int),
            decreases excess - k,
        {
            all.remove(0);
            assert(all@ =~= joined.skip(k + 1));
            k = k + 1;
        }
        self.hid_reports = all;
    }
}

// ── Single capture ────────────────────────────────────────────────────────────

/// What single capture makes of a batch: while capturing, the batch's first
/// key press is caught; in any other state nothing changes.
pub open spec fn capture_after(c: CaptureState, batch: Seq<DisplayEvent>) -> CaptureState {
    match c {
        CaptureState::Capturing => match first_press(batch) {
            Some(i) => CaptureState::Captured(batch[i]),
            None => CaptureState::Capturing,
        },
        _ => c,
    }
}

impl DebugView {
    /// One frame of single capture: while capturing, the first key press of
    /// the batch ends the capture; the rest of the batch is dropped.
    pub fn capture_step(&mut self, batch: Vec<DisplayEvent>)
        ensures
            old(self).bounded() ==> final(self).bounded(),
            *final(self) == (DebugView { capture: capture_after(old(self).capture, batch@), ..*old(self) }),
    {
        let capturing = match self.capture {
            CaptureState::Capturing => true,
            _ => false,
        };
        if capturing {
            match DebugView::drain_for_capture(batch) {
                Some(ev) => {
                    self.capture = CaptureState::Captured(ev);
                },
                None => {},
            }
        }
    }
}

// ── Pausing the continuous log ────────────────────────────────────────────────

impl DebugView {
    /// The deadline a log resumed at `now` gets: the auto-stop window later
    /// when auto-stop is on, none otherwise.
    pub open spec fn resume_deadline(self, now: Duration) -> Option<u128> {
        if self.log_auto_stop {
            Some((duration_nanos(now) + self.log_auto_stop_secs * 1_000_000_000) as u128)
        } else {
            None
        }
    }

    /// The running log's auto-stop deadline has come at `now`.
    pub open spec fn deadline_passed(self, now: Duration) -> bool {
        !self.paused && (self.stop_deadline matches Some(d) && duration_nanos(now) >= d)
    }

    /// Pauses or resumes the continuous log at `now`: resuming with
    /// auto-stop on sets the deadline, any other toggle clears it.
    pub fn toggle_pause(&mut self, now: Duration)
        ensures
            old(self).bounded() ==> final(self).bounded(),
            *final(self) == (DebugView {
                paused: !old(self).paused,
                stop_deadline: if old(self).paused {
                    old(self).resume_deadline(now)
                } else {
                    None
                },
                ..*old(self)
            }),
    {
        self.paused = !self.paused;
        if !self.paused && self.log_auto_stop {
            let now_ns = as_nanos(now);
            let window: u128 = self.log_auto_stop_secs as u128 * 1_000_000_000;
            self.stop_deadline = Some(now_ns + window);
        } else {
            self.stop_deadline = None;
        }
    }

    /// One frame of the continuous log, before events are taken: a deadline
    /// that has come pauses the log. Returns whether the log runs, that is,
    /// whether events are taken from the channel now.
    pub fn log_tick(&mut self, now: Duration) -> (r: bool)
        ensures
            old(self).bounded() ==> final(self).bounded(),
            old(self).deadline_passed(now) ==> *final(self) == (DebugView {
                paused: true,
                stop_deadline: None,
                ..*old(self)
            }),
            !old(self).deadline_passed(now) ==> *final(self) == *old(self),
            r == (!old(self).paused && !old(self).deadline_passed(now)),
    {
        if self.paused {
            return false;
        }
        match self.stop_deadline {
            Some(d) => {
                let now_ns = as_nanos(now);
                if now_ns >= d {
                    self.paused = true;
                    self.stop_deadline = None;
                    false
                } else {
                    true
                }
            },
            None => true,
        }
    }
}

// ── Device filters ────────────────────────────────────────────────────────────

/// Whether a name is in a list of names.
fn list_has(v: &Vec<String>, name: &str) -> (r: bool)
    ensures
        r == names_view(v@).contains(name@),
{
    let n = chars_of(name);
    let ghost nv = names_view(v@);
    let mut i: usize = 0;
    while i < v.len()
        invariant
            i <= v@.len(),
            nv == names_view(v@),
            n@ == name@,
            forall|j: int| 0 <= j < i ==> nv[j] != name@,
        decreases v@.len() - i,
    {
        let s = chars_of(v[i].as_str());
        if chars_eq(s.as_slice(), n.as_slice()) {
            assert(nv[i as int] == name@);
            return true;
        }
        i = i + 1;
    }
    proof {
        if nv.contains(name@) {
            let j = choose|j: int| 0 <= j < nv.len() && nv[j] == name@;
            assert(nv[j] != name@);
        }
    }
    false
}

/// The names other than `n`, in order.
pub open spec fn without_name(s: Seq<Seq<char>>, n: Seq<char>) -> Seq<Seq<char>>
    decreases s.len(),
{
    if s.len() == 0 {
        seq![]
    } else if s.last() == n {
        without_name(s.drop_last(), n)
    } else {
        without_name(s.drop_last(), n).push(s.last())
    }
}

/// Clicking a name in a filter: a selected name leaves it, any other joins it.
pub open spec fn toggled(s: Seq<Seq<char>>, n: Seq<char>) -> Seq<Seq<char>> {
    if s.contains(n) {
        without_name(s, n)
    } else {
        s.push(n)
    }
}

proof fn lemma_without_name_set(s: Seq<Seq<char>>, n: Seq<char>)
    ensures
        without_name(s, n).to_set() == s.to_set().remove(n),
    decreases s.len(),
{
    if s.len() == 0 {
        assert(s.to_set() =~= Set::<Seq<char>>::empty());
        assert(without_name(s, n).to_set() =~= Set::<Seq<char>>::empty());
    } else {
        lemma_without_name_set(s.drop_last(), n);
        let r = without_name(s.drop_last(), n);
        assert(s =~= s.drop_last().push(s.last()));
        s.drop_last().lemma_push_to_set_commute(s.last());
        if s.last() != n {
            r.lemma_push_to_set_commute(s.last());
        }
        assert(without_name(s, n).to_set() =~= s.to_set().remove(n));
    }
}

/// Removes every copy of `name` from the list.
fn remove_name(v: &mut Vec<String>, name: &str)
    ensures
        names_view(final(v)@) == without_name(names_view(old(v)@), name@),
{
    let mut kept: Vec<String> = Vec::new();
    let mut all: Vec<String> = Vec::new();
    std::mem::swap(&mut all, v);
    let ghost orig = names_view(all@);
    let n = chars_of(name);
    let mut k: usize = 0;
    while k < all.len()
        invariant
            k <= all@.len(),
            orig == names_view(all@),
            n@ == name@,
            names_view(kept@) == without_name(orig.take(k as int), name@),
        decreases all@.len() - k,
    {
        let s = chars_of(all[k].as_str());
        proof {
            let t = orig.take(k + 1);
            assert(t.drop_last() =~= orig.take(k as int));
            assert(t.last() == all@[k as int]@);
        }
        if !chars_eq(s.as_slice(), n.as_slice()) {
            let ghost before = names_view(kept@);
            kept.push(all[k].clone());
            assert(names_view(kept@) =~= before.push(all@[k as int]@));
        }
        k = k + 1;
    }
    proof {
        assert(orig.take(all@.len() as int) =~= orig);
    }
    *v = kept;
}

/// Clicks `name` in a filter list.
fn toggle_name(v: &mut Vec<String>, name: String)
    ensures
        names_view(final(v)@) == toggled(names_view(old(v)@), name@),
{
    if list_has(v, name.as_str()) {
        remove_name(v, name.as_str());
    } else {
        let ghost before = names_view(v@);
        v.push(name);
        assert(names_view(v@) =~= before.push(name@));
    }
}

/// Clicking a name twice leaves the filter holding the same names as before.
pub proof fn law_toggle_twice_restores(s: Seq<Seq<char>>, n: Seq<char>)
    ensures
        toggled(toggled(s, n), n).to_set() == s.to_set(),
{
    if s.contains(n) {
        lemma_without_name_set(s, n);
        let w = without_name(s, n);
        assert(!w.contains(n)) by {
            if w.contains(n) {
                assert(w.to_set().contains(n));
            }
        }
        w.lemma_push_to_set_commute(n);
        assert(s.to_set().contains(n));
        assert(toggled(toggled(s, n), n).to_set() =~= s.to_set());
    } else {
        let p = s.push(n);
        assert(p.contains(n)) by {
            assert(p[s.len() as int] == n);
        }
        lemma_without_name_set(p, n);
        s.lemma_push_to_set_commute(n);
        assert(!s.to_set().contains(n));
        assert(toggled(toggled(s, n), n).to_set() =~= s.to_set());
    }
}

impl DebugView {
    /// Clicks a device in the log's device list.
    pub fn toggle_device(&mut self, name: String)
        ensures
            old(self).bounded() ==> final(self).bounded(),
            *final(self) == (DebugView { selected_evdev: final(self).selected_evdev, ..*old(self) }),
            names_view(final(self).selected_evdev@) == toggled(names_view(old(self).selected_evdev@), name@),
    {
        toggle_name(&mut self.selected_evdev, name);
    }

    /// Clicks a hidraw node in the HID probe's device list.
    pub fn toggle_hid(&mut self, path: String)
        ensures
            old(self).bounded() ==> final(self).bounded(),
            *final(self) == (DebugView { selected_hid: final(self).selected_hid, ..*old(self) }),
            names_view(final(self).selected_hid@) == toggled(names_view(old(self).selected_hid@), path@),
    {
        toggle_name(&mut self.selected_hid, path);
    }

    /// Shown in the HID probe: every report when no node is selected, else
    /// the selected nodes' reports.
    pub open spec fn hid_shown(self, r: HidRawReport) -> bool {
        self.selected_hid@.len() == 0 || names_view(self.selected_hid@).contains(r.device.hidraw_path@)
    }

    /// Whether the HID probe shows a report.
    pub fn hid_visible(&self, r: &HidRawReport) -> (b: bool)
        ensures
            b == self.hid_shown(*r),
    {
        self.selected_hid.len() == 0 || list_has(&self.selected_hid, r.device.hidraw_path.as_str())
    }
}

// ── HID probe ─────────────────────────────────────────────────────────────────

/// A report is recent: no more than `secs` seconds older than `now`.
pub open spec fn recent_report(now: Duration, r: HidRawReport, secs: u32) -> bool {
    let n = duration_nanos(now);
    let e = duration_nanos(r.elapsed);
    (if n >= e {
        n - e
    } else {
        0
    }) <= secs * 1_000_000_000
}

/// The reports that are recent, in order.
pub open spec fn recent_reports(rs: Seq<HidRawReport>, now: Duration, secs: u32) -> Seq<HidRawReport>
    decreases rs.len(),
{
    if rs.len() == 0 {
        seq![]
    } else if recent_report(now, rs.last(), secs) {
        recent_reports(rs.drop_last(), now, secs).push(rs.last())
    } else {
        recent_reports(rs.drop_last(), now, secs)
    }
}

proof fn lemma_recent_reports(rs: Seq<HidRawReport>, now: Duration, secs: u32)
    ensures
        recent_reports(rs, now, secs).len() <= rs.len(),
        forall|i: int| 0 <= i < recent_reports(rs, now, secs).len() ==> recent_report(now, #[trigger] recent_reports(rs, now, secs)[i], secs),
    decreases rs.len(),
{
    if rs.len() > 0 {
        lemma_recent_reports(rs.drop_last(), now, secs);
        let r = recent_reports(rs.drop_last(), now, secs);
        if recent_report(now, rs.last(), secs) {
            assert forall|i: int| 0 <= i < r.push(rs.last()).len() implies recent_report(now, #[trigger] r.push(rs.last())[i], secs) by {
                if i < r.len() {
                    assert(r.push(rs.last())[i] == r[i]);
                }
            }
        }
    }
}

impl DebugView {
    /// Drops the reports older than the HID auto-clear window before `now`.
    pub fn retain_recent_reports(&mut self, now: Duration)
        ensures
            old(self).bounded() ==> final(self).bounded(),
            *final(self) == (DebugView { hid_reports: final(self).hid_reports, ..*old(self) }),
            final(self).hid_reports@ == recent_reports(old(self).hid_reports@, now, old(self).hid_auto_clear_secs),
            forall|i: int| 0 <= i < final(self).hid_reports@.len() ==> recent_report(now, #[trigger] final(self).hid_reports@[i], old(self).hid_auto_clear_secs),
    {
        let secs = self.hid_auto_clear_secs;
        let window: u128 = secs as u128 * 1_000_000_000;
        let now_ns = as_nanos(now);
        let mut all: Vec<HidRawReport> = Vec::new();
        std::mem::swap(&mut all, &mut self.hid_reports);
        let ghost rs = all@;
        let mut kept: Vec<HidRawReport> = Vec::new();
        let mut k: usize = 0;
        let n = all.len();
        while k < n
            invariant
                n == rs.len(),
                k <= n,
                all@ == rs.skip(k as int),
                kept@ == recent_reports(rs.take(k as int), now, secs),
                window == secs * 1_000_000_000,
                now_ns == duration_nanos(now),
            decreases n - k,
        {
            let r = all.remove(0);
            proof {
                assert(all@ =~= rs.skip(k + 1));
                let t = rs.take(k + 1);
                assert(t.drop_last() =~= rs.take(k as int));
                assert(t.last() == r);
            }
            let e_ns = as_nanos(r.elapsed);
            let age: u128 = if now_ns >= e_ns {
                now_ns - e_ns
            } else {
                0
            };
            if age <= window {
                kept.push(r);
            }
            k = k + 1;
        }
        proof {
            assert(rs.take(n as int) =~= rs);
            lemma_recent_reports(rs, now, secs);
        }
        self.hid_reports = kept;
    }
}

/// The HID probe's "Keys" column: the G-keys held in a Corsair K95 G-key
/// report, nothing for a report with none held or of another kind.
pub open spec fn report_keys_spec(data: Seq<u8>) -> Seq<char> {
    match gkeys::decode_spec(data) {
        Some(m) => if m > 0 {
            gkeys::names_spec(m)
        } else {
            seq![]
        },
        None => seq![],
    }
}

/// The held G-keys a report shows, such as `"G1+G3"`.
pub fn report_keys(data: &[u8]) -> (r: String)
    ensures
        r@ == report_keys_spec(data@),
{
    match gkeys::decode(data) {
        Some(m) => if m > 0 {
            gkeys::names(m)
        } else {
            String::new()
        },
        None => String::new(),
    }
}

/// The HID probe's label of a hidraw node: its last path component, then
/// ` if` and the interface number, such as `"hidraw3 if1"`.
pub open spec fn interface_label_spec(path: Seq<char>, interface: u8) -> Seq<char> {
    after_last(path, '/') + " if"@ + dec_digits(interface as nat)
}

/// The HID probe's label of a hidraw node.
pub fn interface_label(dev: &HidRawDevice) -> (r: String)
    ensures
        r@ == interface_label_spec(dev.hidraw_path@, dev.interface),
{
    let path = chars_of(dev.hidraw_path.as_str());
    let mut out = after_last_char(path.as_slice(), '/');
    extend_str(&mut out, " if");
    push_decimal(&mut out, dev.interface as u128, 0);
    proof {
        assert(zero_pad(dec_digits(dev.interface as nat), 0) == dec_digits(dev.interface as nat));
    }
    string_from_chars(out.as_slice())
}

} // verus!
