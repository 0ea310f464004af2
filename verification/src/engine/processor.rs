//! The remap state machine: for each input event it updates the held
//! modifiers, active remaps, running loop macros and pending timed triggers,
//! and says what to send to the virtual device or which macro to start.
use vstd::prelude::*;
use crate::config::{FireMode, KeyAssignment, Profile, TriggerMode};
use crate::constants::KEY_ESC_CODE;
use crate::engine::assoc::CodeMap;
use crate::engine::keysets::{macro_release_keys, release_codes, remap_codes, remap_keys};
use crate::engine::matching::{
    deferred_match, find_assignment, find_macro, find_mod, find_timed_assignment, has_deferred_trigger,
    hold_trigger, immediate_match, last_best, lemma_last_best_unique, macro_index, mod_for, none_match,
    timed_match, lemma_macro_index_bounds,
};
use crate::keys::{key_name, key_name_spec, KeyTable};

verus! {

/// evdev event type of synchronization events.
pub const EV_SYN: u16 = 0;

/// evdev event type of key and button events.
pub const EV_KEY: u16 = 1;

/// evdev event type of relative axis events (mouse movement).
pub const EV_REL: u16 = 2;

/// What the engine must do in response to an event.
#[derive(Debug, Clone, Copy, PartialEq, Eq, Structural)]
pub enum ProcessorAction {
    /// Send this key state (1 press, 0 release) followed by a sync event.
    Emit { code: u16, value: i32 },
    /// Forward the input event unchanged.
    Passthrough,
    /// Run the profile's macro at this position once, in the background.
    RunMacro { macro_index: usize },
    /// Start the loop macro at this position for the key with this code.
    StartLoop { source_code: u16, macro_index: usize },
    /// Ask the loop started by this key to stop after its current iteration.
    StopLoop { source_code: u16 },
    /// Abort the loop started by this key at once.
    AbortLoop { source_code: u16 },
    /// Start the emergency-exit timer (ESC held).
    ArmEscExit,
    /// Cancel the emergency-exit timer (ESC released).
    DisarmEscExit,
}

/// A key press whose timed assignment is decided when the key is released.
pub struct PendingTrigger {
    /// When the key went down (milliseconds on a monotonic clock).
    pub press_ms: u64,
    /// The device that sent the press.
    pub device: String,
    /// The modifiers held at the press.
    pub mods: Vec<u128>,
}

impl View for PendingTrigger {
    type V = (u64, Seq<char>, Set<u128>);

    open spec fn view(&self) -> (u64, Seq<char>, Set<u128>) {
        (self.press_ms, self.device@, self.mods@.to_set())
    }
}

/// The state of the remap engine.
pub ghost struct ProcessorModel {
    /// Modifiers currently held.
    pub held: Set<u128>,
    /// Source key code → the remapped keys it holds down.
    pub remaps: Map<u16, Seq<u16>>,
    /// Source key code → the keys its running loop macro may hold.
    pub loops: Map<u16, Seq<u16>>,
    /// Source key code → (press time, device, modifiers held) of a deferred trigger.
    pub pending: Map<u16, (u64, Seq<char>, Set<u128>)>,
    /// The emergency-exit timer is running.
    pub esc_armed: bool,
}

/// The engine state when a session starts.
pub open spec fn initial_model() -> ProcessorModel {
    ProcessorModel {
        held: Set::empty(),
        remaps: Map::empty(),
        loops: Map::empty(),
        pending: Map::empty(),
        esc_armed: false,
    }
}

/// The best-ranked matching assignment, if any.
pub open spec fn best_of(s: Seq<KeyAssignment>, p: spec_fn(KeyAssignment) -> bool) -> Option<int> {
    if exists|i: int| last_best(s, p, i) {
        Some(choose|i: int| last_best(s, p, i))
    } else {
        None
    }
}

proof fn lemma_best_of_some(s: Seq<KeyAssignment>, p: spec_fn(KeyAssignment) -> bool, i: int)
    requires
        last_best(s, p, i),
    ensures
        best_of(s, p) == Some(i),
{
    let k = choose|k: int| last_best(s, p, k);
    lemma_last_best_unique(s, p, i, k);
}

proof fn lemma_best_of_none(s: Seq<KeyAssignment>, p: spec_fn(KeyAssignment) -> bool)
    requires
        none_match(s, p),
    ensures
        best_of(s, p) is None,
{
    if exists|i: int| last_best(s, p, i) {
        let i = choose|i: int| last_best(s, p, i);
        assert(!p(s[i]));
    }
}

/// ESC arms the emergency-exit timer when pressed and disarms it when released.
pub open spec fn esc_step(m: ProcessorModel, code: u16, value: i32) -> (ProcessorModel, Seq<ProcessorAction>) {
    if code == KEY_ESC_CODE && value == 1 {
        (ProcessorModel { esc_armed: true, ..m }, seq![ProcessorAction::ArmEscExit])
    } else if code == KEY_ESC_CODE && value == 0 && m.esc_armed {
        (ProcessorModel { esc_armed: false, ..m }, seq![ProcessorAction::DisarmEscExit])
    } else {
        (m, seq![])
    }
}

/// Milliseconds from `t` to `now`, zero if `now` is earlier.
pub open spec fn elapsed_since(now: u64, t: u64) -> u64 {
    if now >= t {
        (now - t) as u64
    } else {
        0
    }
}

/// What the release of a deferred key runs: the Single macro of the timed
/// assignment that fits the hold duration, if any.
pub open spec fn fire_timed(p: Profile, name: Seq<char>, mods: Set<u128>, device: Seq<char>, elapsed: u64) -> Seq<ProcessorAction> {
    match hold_trigger(elapsed) {
        None => seq![],
        Some(t) => match best_of(p.assignments@, |a: KeyAssignment| timed_match(a, name, mods, device, t)) {
            None => seq![],
            Some(i) => match p.assignments@[i].macro_id {
                None => seq![],
                Some(id) => match macro_index(p.macros@, id) {
                    None => seq![],
                    Some(mi) => if p.macros@[mi].fire == FireMode::Single {
                        seq![ProcessorAction::RunMacro { macro_index: mi as usize }]
                    } else {
                        seq![]
                    },
                },
            },
        },
    }
}

/// One `Emit` per code, all with the same value.
pub open spec fn emits(codes: Seq<u16>, value: i32) -> Seq<ProcessorAction> {
    codes.map_values(|c: u16| ProcessorAction::Emit { code: c, value: value })
}

/// A key release: a modifier is let go; a deferred trigger fires by hold
/// time; a remap releases its keys in reverse order; a loop is asked to stop;
/// any other key passes through.
pub open spec fn release_step(
    m: ProcessorModel,
    p: Profile,
    code: u16,
    name: Seq<char>,
    device: Seq<char>,
    now: u64,
) -> (ProcessorModel, Seq<ProcessorAction>) {
    match mod_for(p.modifiers@, name, device) {
        Some(id) => (ProcessorModel { held: m.held.remove(id), ..m }, seq![]),
        None => if m.pending.dom().contains(code) {
            let (t, d, ms) = m.pending[code];
            (
                ProcessorModel { pending: m.pending.remove(code), ..m },
                fire_timed(p, name, ms, d, elapsed_since(now, t)),
            )
        } else if m.remaps.dom().contains(code) {
            (ProcessorModel { remaps: m.remaps.remove(code), ..m }, emits(m.remaps[code].reverse(), 0))
        } else if m.loops.dom().contains(code) {
            (
                ProcessorModel { loops: m.loops.remove(code), ..m },
                seq![ProcessorAction::StopLoop { source_code: code }],
            )
        } else {
            (m, seq![ProcessorAction::Passthrough])
        },
    }
}

/// What a press of a key bound by an immediate assignment does.
pub open spec fn fire_assignment(m: ProcessorModel, p: Profile, code: u16, a: KeyAssignment) -> (ProcessorModel, Seq<ProcessorAction>) {
    match a.remap_key {
        Some(r) => {
            let ks = remap_codes(r@);
            if ks.len() > 0 {
                (ProcessorModel { remaps: m.remaps.insert(code, ks), ..m }, emits(ks, 1))
            } else {
                (m, seq![])
            }
        },
        None => match a.macro_id {
            None => (m, seq![]),
            Some(id) => match macro_index(p.macros@, id) {
                None => (m, seq![]),
                Some(mi) => if p.macros@[mi].fire == FireMode::Loop {
                    (
                        ProcessorModel { loops: m.loops.insert(code, release_codes(p.macros@[mi])), ..m },
                        seq![ProcessorAction::StartLoop { source_code: code, macro_index: mi as usize }],
                    )
                } else {
                    (m, seq![ProcessorAction::RunMacro { macro_index: mi as usize }])
                },
            },
        },
    }
}

/// The assignment that a press fires at once, if any.
pub open spec fn immediate_choice(p: Profile, name: Seq<char>, held: Set<u128>, device: Seq<char>) -> Option<int> {
    best_of(p.assignments@, |a: KeyAssignment| immediate_match(a, name, held, device))
}

/// Some assignment waits for the release of this press.
pub open spec fn has_deferred(p: Profile, name: Seq<char>, held: Set<u128>, device: Seq<char>) -> bool {
    exists|j: int| 0 <= j < p.assignments@.len() && deferred_match(#[trigger] p.assignments@[j], name, held, device)
}

/// A key press: a modifier is held; an immediate assignment fires; a
/// deferred one records the press; any other key passes through.
pub open spec fn press_step(
    m: ProcessorModel,
    p: Profile,
    code: u16,
    name: Seq<char>,
    device: Seq<char>,
    now: u64,
) -> (ProcessorModel, Seq<ProcessorAction>) {
    match mod_for(p.modifiers@, name, device) {
        Some(id) => (ProcessorModel { held: m.held.insert(id), ..m }, seq![]),
        None => match immediate_choice(p, name, m.held, device) {
            Some(i) => fire_assignment(m, p, code, p.assignments@[i]),
            None => if has_deferred(p, name, m.held, device) {
                (ProcessorModel { pending: m.pending.insert(code, (now, device, m.held)), ..m }, seq![])
            } else {
                (m, seq![ProcessorAction::Passthrough])
            },
        },
    }
}

/// The whole response to a key event (value 1 press, 0 release, 2 repeat).
/// Repeats are dropped: the virtual device makes its own.
pub open spec fn key_event_spec(
    m: ProcessorModel,
    p: Profile,
    code: u16,
    name: Seq<char>,
    value: i32,
    device: Seq<char>,
    now: u64,
) -> (ProcessorModel, Seq<ProcessorAction>) {
    let (m1, a1) = esc_step(m, code, value);
    if value == 0 {
        let (m2, a2) = release_step(m1, p, code, name, device, now);
        (m2, a1 + a2)
    } else if value == 1 {
        let (m2, a2) = press_step(m1, p, code, name, device, now);
        (m2, a1 + a2)
    } else {
        (m1, a1)
    }
}

/// The response to any input event: key events go through the state
/// machine; relative motion and sync events pass through; others are dropped.
pub open spec fn event_spec(
    m: ProcessorModel,
    p: Profile,
    ev_type: u16,
    code: u16,
    value: i32,
    device: Seq<char>,
    now: u64,
) -> (ProcessorModel, Seq<ProcessorAction>) {
    if ev_type == EV_KEY {
        key_event_spec(m, p, code, key_name_spec(code), value, device, now)
    } else if ev_type == EV_REL || ev_type == EV_SYN {
        (m, seq![ProcessorAction::Passthrough])
    } else {
        (m, seq![])
    }
}

/// What stopping a session does for the running loops, taken in the given
/// order: abort each loop, then release the keys it may hold.
pub open spec fn loop_shutdown(keys: Seq<u16>, loops: Map<u16, Seq<u16>>) -> Seq<ProcessorAction>
    decreases keys.len(),
{
    if keys.len() == 0 {
        seq![]
    } else {
        loop_shutdown(keys.drop_last(), loops) + seq![ProcessorAction::AbortLoop { source_code: keys.last() }]
            + emits(loops[keys.last()], 0)
    }
}

/// What stopping a session does for the held remaps, taken in the given
/// order: release each remap's keys in reverse order.
pub open spec fn remap_shutdown(keys: Seq<u16>, remaps: Map<u16, Seq<u16>>) -> Seq<ProcessorAction>
    decreases keys.len(),
{
    if keys.len() == 0 {
        seq![]
    } else {
        remap_shutdown(keys.drop_last(), remaps) + emits(remaps[keys.last()].reverse(), 0)
    }
}

/// The remap engine of one session.
pub struct EventProcessor {
    profile: Profile,
    table: KeyTable,
    held_mods: Vec<u128>,
    remaps: CodeMap<Vec<u16>>,
    loops: CodeMap<Vec<u16>>,
    pending: CodeMap<PendingTrigger>,
    esc_armed: bool,
}

impl View for EventProcessor {
    type V = ProcessorModel;

    closed spec fn view(&self) -> ProcessorModel {
        ProcessorModel {
            held: self.held_mods@.to_set(),
            remaps: self.remaps@,
            loops: self.loops@,
            pending: self.pending@,
            esc_armed: self.esc_armed,
        }
    }
}

/// Adds `e` to the end of `v` unless it is already there.
fn insert_id(v: &mut Vec<u128>, e: u128)
    ensures
        final(v)@.to_set() == old(v)@.to_set().insert(e),
        old(v)@.no_duplicates() ==> final(v)@.no_duplicates(),
{
    if !crate::engine::matching::contains_id(v.as_slice(), e) {
        let ghost before = v@;
        v.push(e);
        proof {
            Seq::<u128>::lemma_to_set_insert_commutes(before, e);
            assert(v@ =~= before + seq![e]);
            if before.no_duplicates() {
                assert forall|a: int, b: int| 0 <= a < v@.len() && 0 <= b < v@.len() && a != b implies v@[a] != v@[b] by {
                    if a == v@.len() - 1 {
                        assert(v@[b] == before[b]);
                    } else if b == v@.len() - 1 {
                        assert(v@[a] == before[a]);
                    }
                }
            }
        }
    } else {
        proof {
            assert(v@.to_set() =~= v@.to_set().insert(e));
        }
    }
}

/// Removes every occurrence of `e` from `v`.
fn remove_id(v: &mut Vec<u128>, e: u128)
    ensures
        final(v)@.to_set() == old(v)@.to_set().remove(e),
        old(v)@.no_duplicates() ==> final(v)@.no_duplicates(),
{
    let mut out: Vec<u128> = Vec::new();
    let mut i: usize = 0;
    while i < v.len()
        invariant
            i <= v@.len(),
            v@ == old(v)@,
            forall|k: int| 0 <= k < out@.len() ==> #[trigger] out@[k] != e,
            forall|x: u128| #[trigger] out@.contains(x) <==> (x != e && v@.take(i as int).contains(x)),
            v@.no_duplicates() ==> out@.no_duplicates(),
            v@.no_duplicates() ==> forall|k: int, j: int| 0 <= k < out@.len() && i <= j < v@.len() ==> out@[k] != v@[j],
        decreases v@.len() - i,
    {
        let x = v[i];
        proof {
            assert(v@.take(i + 1) =~= v@.take(i as int).push(x));
        }
        if x != e {
            let ghost before = out@;
            out.push(x);
            proof {
                let t0 = v@.take(i as int);
                let t1 = v@.take(i + 1);
                assert forall|y: u128| #[trigger] out@.contains(y) <==> (y != e && t1.contains(y)) by {
                    if out@.contains(y) {
                        let k = choose|k: int| 0 <= k < out@.len() && out@[k] == y;
                        if k < before.len() {
                            assert(before[k] == y);
                            assert(before.contains(y));
                            assert(y != e && t0.contains(y));
                            let k0 = choose|k0: int| 0 <= k0 < t0.len() && t0[k0] == y;
                            assert(t1[k0] == y);
                        } else {
                            assert(y == x);
                            assert(t1[i as int] == y);
                        }
                    }
                    if y != e && t1.contains(y) {
                        let k = choose|k: int| 0 <= k < t1.len() && #[trigger] t1[k] == y;
                        if k < i {
                            assert(t0[k] == y);
                            assert(t0.contains(y));
                            assert(before.contains(y));
                            let kk = choose|kk: int| 0 <= kk < before.len() && before[kk] == y;
                            assert(out@[kk] == y);
                        } else {
                            assert(out@[out@.len() - 1] == y);
                        }
                    }
                }
                if v@.no_duplicates() {
                    assert forall|a: int, b: int| 0 <= a < out@.len() && 0 <= b < out@.len() && a != b implies out@[a] != out@[b] by {
                        if a == out@.len() - 1 {
                            assert(out@[b] == before[b]);
                        } else if b == out@.len() - 1 {
                            assert(out@[a] == before[a]);
                        }
                    }
                }
            }
        } else {
            proof {
                assert forall|y: u128| #[trigger] out@.contains(y) <==> (y != e && v@.take(i + 1).contains(y)) by {
                    if y != e && v@.take(i + 1).contains(y) {
                        let tk = v@.take(i + 1);
                        let k = choose|k: int| 0 <= k < tk.len() && #[trigger] tk[k] == y;
                        assert(v@.take(i as int)[k] == y);
                    }
                }
            }
        }
        i = i + 1;
    }
    proof {
        assert(v@.take(v@.len() as int) =~= v@);
        assert(out@.to_set() =~= v@.to_set().remove(e));
    }
    *v = out;
}

/// Appends one `Emit` per code, all with the same value.
fn push_emits(out: &mut Vec<ProcessorAction>, codes: &Vec<u16>, value: i32)
    ensures
        final(out)@ == old(out)@ + emits(codes@, value),
{
    let mut i: usize = 0;
    while i < codes.len()
        invariant
            i <= codes@.len(),
            out@ == old(out)@ + emits(codes@.take(i as int), value),
        decreases codes@.len() - i,
    {
        out.push(ProcessorAction::Emit { code: codes[i], value });
        proof {
            assert(emits(codes@.take(i + 1), value) =~= emits(codes@.take(i as int), value).push(
                ProcessorAction::Emit { code: codes@[i as int], value },
            ));
        }
        i = i + 1;
    }
    proof {
        assert(codes@.take(codes@.len() as int) =~= codes@);
    }
}

/// Appends one `Emit` per code in reverse order, all with the same value.
fn push_emits_reversed(out: &mut Vec<ProcessorAction>, codes: &Vec<u16>, value: i32)
    ensures
        final(out)@ == old(out)@ + emits(codes@.reverse(), value),
{
    let mut i: usize = codes.len();
    while i > 0
        invariant
            i <= codes@.len(),
            out@ == old(out)@ + emits(codes@.subrange(i as int, codes@.len() as int).reverse(), value),
        decreases i,
    {
        i = i - 1;
        out.push(ProcessorAction::Emit { code: codes[i], value });
        proof {
            assert(codes@.subrange(i as int, codes@.len() as int).reverse() =~= codes@.subrange(
                (i + 1) as int,
                codes@.len() as int,
            ).reverse().push(codes@[i as int]));
            assert(emits(codes@.subrange(i as int, codes@.len() as int).reverse(), value) =~= emits(
                codes@.subrange((i + 1) as int, codes@.len() as int).reverse(),
                value,
            ).push(ProcessorAction::Emit { code: codes@[i as int], value }));
        }
    }
    proof {
        assert(codes@.subrange(0, codes@.len() as int) =~= codes@);
    }
}

impl EventProcessor {
    /// The internal tables are consistent.
    pub closed spec fn wf(&self) -> bool {
        &&& self.table.wf()
        &&& self.held_mods@.no_duplicates()
        &&& self.remaps.wf()
        &&& self.loops.wf()
        &&& self.pending.wf()
    }

    /// The source keys of the running loops, oldest first.
    pub closed spec fn loop_order(&self) -> Seq<u16> {
        self.loops.keys()
    }

    /// The source keys of the held remaps, oldest first.
    pub closed spec fn remap_order(&self) -> Seq<u16> {
        self.remaps.keys()
    }

    /// Ends the session: aborts every running loop and releases the keys it
    /// may hold, then releases every remapped key still down. Loop end
    /// events do not run.
    pub fn shutdown(&mut self) -> (r: Vec<ProcessorAction>)
        requires
            old(self).wf(),
        ensures
            final(self).wf(),
            final(self).profile_spec() == old(self).profile_spec(),
            final(self)@ == (ProcessorModel { loops: Map::empty(), remaps: Map::empty(), ..old(self)@ }),
            r@ == loop_shutdown(old(self).loop_order(), old(self)@.loops) + remap_shutdown(
                old(self).remap_order(),
                old(self)@.remaps,
            ),
            old(self).loop_order().to_set() == old(self)@.loops.dom(),
            old(self).remap_order().to_set() == old(self)@.remaps.dom(),
    {
        let ghost m = self@;
        let ghost lk = self.loops.keys();
        let ghost rk = self.remaps.keys();
        let loops = self.loops.drain_all();
        let remaps = self.remaps.drain_all();
        proof {
            let lks = loops@.map_values(|e: (u16, Vec<u16>)| e.0);
            assert(lks =~= lk);
            let rks = remaps@.map_values(|e: (u16, Vec<u16>)| e.0);
            assert(rks =~= rk);
        }
        let mut out: Vec<ProcessorAction> = Vec::new();
        let mut i: usize = 0;
        while i < loops.len()
            invariant
                i <= loops@.len(),
                loops@.len() == lk.len(),
                forall|k: int| 0 <= k < loops@.len() ==> (#[trigger] loops@[k]).0 == lk[k],
                forall|k: int| 0 <= k < loops@.len() ==> m.loops.dom().contains((#[trigger] loops@[k]).0)
                    && m.loops[loops@[k].0] == loops@[k].1@,
                out@ == loop_shutdown(lk.take(i as int), m.loops),
            decreases loops@.len() - i,
        {
            out.push(ProcessorAction::AbortLoop { source_code: loops[i].0 });
            push_emits(&mut out, &loops[i].1, 0);
            proof {
                assert(lk.take(i + 1).drop_last() =~= lk.take(i as int));
                assert(lk.take(i + 1).last() == loops@[i as int].0);
            }
            i = i + 1;
        }
        let ghost mid = out@;
        let mut j: usize = 0;
        while j < remaps.len()
            invariant
                j <= remaps@.len(),
                remaps@.len() == rk.len(),
                forall|k: int| 0 <= k < remaps@.len() ==> (#[trigger] remaps@[k]).0 == rk[k],
                forall|k: int| 0 <= k < remaps@.len() ==> m.remaps.dom().contains((#[trigger] remaps@[k]).0)
                    && m.remaps[remaps@[k].0] == remaps@[k].1@,
                out@ == mid + remap_shutdown(rk.take(j as int), m.remaps),
            decreases remaps@.len() - j,
        {
            push_emits_reversed(&mut out, &remaps[j].1, 0);
            proof {
                assert(rk.take(j + 1).drop_last() =~= rk.take(j as int));
                assert(rk.take(j + 1).last() == remaps@[j as int].0);
                assert(out@ =~= mid + remap_shutdown(rk.take(j + 1), m.remaps));
            }
            j = j + 1;
        }
        proof {
            assert(lk.take(loops@.len() as int) =~= lk);
            assert(rk.take(remaps@.len() as int) =~= rk);
        }
        out
    }

    /// The profile this processor applies.
    pub closed spec fn profile_spec(&self) -> Profile {
        self.profile
    }

    /// The profile this processor applies.
    pub fn profile(&self) -> (p: &Profile)
        ensures
            *p == self.profile_spec(),
    {
        &self.profile
    }

    /// A processor for a profile, with nothing held.
    pub fn new(profile: Profile) -> (p: Self)
        ensures
            p.wf(),
            p@ == initial_model(),
            p.profile_spec() == profile,
    {
        let p = EventProcessor {
            profile,
            table: KeyTable::new(),
            held_mods: Vec::new(),
            remaps: CodeMap::new(),
            loops: CodeMap::new(),
            pending: CodeMap::new(),
            esc_armed: false,
        };
        proof {
            assert(p.held_mods@.to_set() =~= Set::<u128>::empty());
        }
        p
    }

    /// Handles one input event of the given evdev type, code and value, read
    /// from `device` at time `now_ms`; returns what to do, in order.
    pub fn handle_event(&mut self, ev_type: u16, code: u16, value: i32, device: &String, now_ms: u64) -> (r: Vec<ProcessorAction>)
        requires
            old(self).wf(),
        ensures
            final(self).wf(),
            final(self).profile_spec() == old(self).profile_spec(),
            (final(self)@, r@) == event_spec(old(self)@, old(self).profile_spec(), ev_type, code, value, device@, now_ms),
    {
        if ev_type == EV_KEY {
            let name = key_name(code);
            self.handle_key(code, &name, value, device, now_ms)
        } else if ev_type == EV_REL || ev_type == EV_SYN {
            let mut r = Vec::new();
            r.push(ProcessorAction::Passthrough);
            proof {
                assert(r@ =~= seq![ProcessorAction::Passthrough]);
            }
            r
        } else {
            let r = Vec::new();
            proof {
                assert(r@ =~= Seq::<ProcessorAction>::empty());
            }
            r
        }
    }

    /// Handles a key event for the key named `name` (value 1 press, 0
    /// release, 2 repeat).
    pub fn handle_key(&mut self, code: u16, name: &String, value: i32, device: &String, now_ms: u64) -> (r: Vec<ProcessorAction>)
        requires
            old(self).wf(),
        ensures
            final(self).wf(),
            final(self).profile_spec() == old(self).profile_spec(),
            (final(self)@, r@) == key_event_spec(old(self)@, old(self).profile_spec(), code, name@, value, device@, now_ms),
    {
        let mut out: Vec<ProcessorAction> = Vec::new();
        if code == KEY_ESC_CODE && value == 1 {
            self.esc_armed = true;
            out.push(ProcessorAction::ArmEscExit);
        } else if code == KEY_ESC_CODE && value == 0 && self.esc_armed {
            self.esc_armed = false;
            out.push(ProcessorAction::DisarmEscExit);
        }
        let ghost m1 = self@;
        let ghost a1 = out@;
        proof {
            let (em, ea) = esc_step(old(self)@, code, value);
            assert(m1 == em);
            assert(a1 =~= ea);
        }
        if value == 0 {
            self.release(code, name, device, now_ms, &mut out);
        } else if value == 1 {
            self.press(code, name, device, now_ms, &mut out);
        }
        out
    }

    fn release(&mut self, code: u16, name: &String, device: &String, now_ms: u64, out: &mut Vec<ProcessorAction>)
        requires
            old(self).wf(),
        ensures
            final(self).wf(),
            final(self).profile_spec() == old(self).profile_spec(),
            final(self)@ == release_step(old(self)@, old(self).profile_spec(), code, name@, device@, now_ms).0,
            final(out)@ == old(out)@ + release_step(old(self)@, old(self).profile_spec(), code, name@, device@, now_ms).1,
    {
        let ghost m = self@;
        let ghost p = self.profile;
        if let Some(id) = find_mod(&self.profile.modifiers, name, device) {
            remove_id(&mut self.held_mods, id);
            proof {
                assert(self@ == ProcessorModel { held: m.held.remove(id), ..m });
                assert(out@ =~= old(out)@ + Seq::<ProcessorAction>::empty());
            }
            return;
        }
        let was_pending = self.pending.contains(code);
        if was_pending {
            let t = self.pending.remove(code).unwrap();
            let elapsed = if now_ms >= t.press_ms { now_ms - t.press_ms } else { 0 };
            let ghost before = out@;
            self.fire_timed_exec(name, &t, elapsed, out);
            proof {
                assert(t@ == m.pending[code]);
                assert(self@ == ProcessorModel { pending: m.pending.remove(code), ..m });
            }
            return;
        }
        let was_remap = self.remaps.contains(code);
        if was_remap {
            let rkeys = self.remaps.remove(code).unwrap();
            push_emits_reversed(out, &rkeys, 0);
            proof {
                assert(self@ == ProcessorModel { remaps: m.remaps.remove(code), ..m });
            }
            return;
        }
        let was_loop = self.loops.contains(code);
        if was_loop {
            let _ = self.loops.remove(code);
            out.push(ProcessorAction::StopLoop { source_code: code });
            proof {
                assert(self@ == ProcessorModel { loops: m.loops.remove(code), ..m });
                assert(out@ =~= old(out)@ + seq![ProcessorAction::StopLoop { source_code: code }]);
            }
            return;
        }
        out.push(ProcessorAction::Passthrough);
        proof {
            assert(out@ =~= old(out)@ + seq![ProcessorAction::Passthrough]);
        }
    }

    fn fire_timed_exec(&self, name: &String, t: &PendingTrigger, elapsed: u64, out: &mut Vec<ProcessorAction>)
        ensures
            final(out)@ == old(out)@ + fire_timed(self.profile, name@, t.mods@.to_set(), t.device@, elapsed),
    {
        let ghost p = self.profile;
        let ghost tm = hold_trigger(elapsed);
        match find_timed_assignment(&self.profile, name, t.mods.as_slice(), &t.device, elapsed) {
            None => {
                proof {
                    if let Some(tt) = tm {
                        lemma_best_of_none(p.assignments@, |a: KeyAssignment| timed_match(a, name@, t.mods@.to_set(), t.device@, tt));
                    }
                    assert(out@ =~= old(out)@ + Seq::<ProcessorAction>::empty());
                }
            },
            Some(i) => {
                let tt = crate::engine::matching::classify_hold(elapsed).unwrap();
                proof {
                    lemma_best_of_some(p.assignments@, |a: KeyAssignment| timed_match(a, name@, t.mods@.to_set(), t.device@, tt), i as int);
                }
                match self.profile.assignments[i].macro_id {
                    None => {
                        proof {
                            assert(out@ =~= old(out)@ + Seq::<ProcessorAction>::empty());
                        }
                    },
                    Some(id) => match find_macro(&self.profile.macros, id) {
                        None => {
                            proof {
                                assert(out@ =~= old(out)@ + Seq::<ProcessorAction>::empty());
                            }
                        },
                        Some(mi) => {
                            if self.profile.macros[mi].fire == FireMode::Single {
                                out.push(ProcessorAction::RunMacro { macro_index: mi });
                                proof {
                                    assert(out@ =~= old(out)@ + seq![ProcessorAction::RunMacro { macro_index: mi }]);
                                }
                            } else {
                                proof {
                                    assert(out@ =~= old(out)@ + Seq::<ProcessorAction>::empty());
                                }
                            }
                        },
                    },
                }
            },
        }
    }

    fn press(&mut self, code: u16, name: &String, device: &String, now_ms: u64, out: &mut Vec<ProcessorAction>)
        requires
            old(self).wf(),
        ensures
            final(self).wf(),
            final(self).profile_spec() == old(self).profile_spec(),
            final(self)@ == press_step(old(self)@, old(self).profile_spec(), code, name@, device@, now_ms).0,
            final(out)@ == old(out)@ + press_step(old(self)@, old(self).profile_spec(), code, name@, device@, now_ms).1,
    {
        let ghost m = self@;
        let ghost p = self.profile;
        if let Some(id) = find_mod(&self.profile.modifiers, name, device) {
            insert_id(&mut self.held_mods, id);
            proof {
                assert(self@ == ProcessorModel { held: m.held.insert(id), ..m });
                assert(out@ =~= old(out)@ + Seq::<ProcessorAction>::empty());
            }
            return;
        }
        match find_assignment(&self.profile, name, self.held_mods.as_slice(), device) {
            Some(i) => {
                proof {
                    lemma_best_of_some(p.assignments@, |a: KeyAssignment| immediate_match(a, name@, m.held, device@), i as int);
                }
                self.fire_assignment_exec(code, i, out);
            },
            None => {
                proof {
                    lemma_best_of_none(p.assignments@, |a: KeyAssignment| immediate_match(a, name@, m.held, device@));
                }
                if has_deferred_trigger(&self.profile, name, self.held_mods.as_slice(), device) {
                    let t = PendingTrigger { press_ms: now_ms, device: device.clone(), mods: self.held_mods.clone() };
                    proof {
                        assert(t@ == (now_ms, device@, m.held));
                    }
                    self.pending.insert(code, t);
                    proof {
                        assert(self@ == ProcessorModel { pending: m.pending.insert(code, (now_ms, device@, m.held)), ..m });
                        assert(out@ =~= old(out)@ + Seq::<ProcessorAction>::empty());
                    }
                } else {
                    out.push(ProcessorAction::Passthrough);
                    proof {
                        assert(out@ =~= old(out)@ + seq![ProcessorAction::Passthrough]);
                    }
                }
            },
        }
    }

    fn fire_assignment_exec(&mut self, code: u16, i: usize, out: &mut Vec<ProcessorAction>)
        requires
            old(self).wf(),
            i < old(self).profile.assignments@.len(),
        ensures
            final(self).wf(),
            final(self).profile_spec() == old(self).profile_spec(),
            final(self)@ == fire_assignment(old(self)@, old(self).profile, code, old(self).profile.assignments@[i as int]).0,
            final(out)@ == old(out)@ + fire_assignment(old(self)@, old(self).profile, code, old(self).profile.assignments@[i as int]).1,
    {
        let ghost m = self@;
        let ghost p = self.profile;
        let a = &self.profile.assignments[i];
        match &a.remap_key {
            Some(r) => {
                let ks = remap_keys(&self.table, r);
                if ks.len() > 0 {
                    push_emits(out, &ks, 1);
                    self.remaps.insert(code, ks);
                    proof {
                        assert(self@ == ProcessorModel { remaps: m.remaps.insert(code, remap_codes(r@)), ..m });
                    }
                } else {
                    proof {
                        assert(out@ =~= old(out)@ + Seq::<ProcessorAction>::empty());
                    }
                }
            },
            None => match a.macro_id {
                None => {
                    proof {
                        assert(out@ =~= old(out)@ + Seq::<ProcessorAction>::empty());
                    }
                },
                Some(id) => match find_macro(&self.profile.macros, id) {
                    None => {
                        proof {
                            assert(out@ =~= old(out)@ + Seq::<ProcessorAction>::empty());
                        }
                    },
                    Some(mi) => {
                        if self.profile.macros[mi].fire == FireMode::Loop {
                            let rel = macro_release_keys(&self.table, &self.profile.macros[mi]);
                            self.loops.insert(code, rel);
                            out.push(ProcessorAction::StartLoop { source_code: code, macro_index: mi });
                            proof {
                                assert(self@ == ProcessorModel { loops: m.loops.insert(code, release_codes(p.macros@[mi as int])), ..m });
                                assert(out@ =~= old(out)@ + seq![ProcessorAction::StartLoop { source_code: code, macro_index: mi }]);
                            }
                        } else {
                            out.push(ProcessorAction::RunMacro { macro_index: mi });
                            proof {
                                assert(out@ =~= old(out)@ + seq![ProcessorAction::RunMacro { macro_index: mi }]);
                            }
                        }
                    },
                },
            },
        }
    }
}

} // verus!
