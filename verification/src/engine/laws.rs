//! What holds of the engine across events: a press and the matching release
//! undo each other, unbound keys pass through untouched, Escape arms and
//! disarms the emergency exit, stopping a session releases every key it
//! holds, the scanner follows a game from its detection to its loss, and
//! macro runs end when they should.
use vstd::prelude::*;
use crate::config::{FireMode, Profile};
use crate::constants::KEY_ESC_CODE;
use crate::engine::detect::{first_matching, profile_index, profile_matches_spec, scan_spec, DetectEvent};
use crate::constants::{AUTODETECT_LOST_PAUSE_MS, AUTODETECT_MONITOR_INTERVAL_MS};
use crate::engine::keysets::{release_codes, remap_codes};
use crate::engine::matching::{macro_index, mod_for};
use crate::engine::schedule::{plan_spec, runner_step, MacroStep, RunPhase, RunnerModel};
use crate::engine::processor::{
    emits, event_spec, fire_timed, elapsed_since, has_deferred, immediate_choice, key_event_spec, remap_shutdown,
    ProcessorAction, ProcessorModel, EV_KEY,
};

verus! {

/// The key is no modifier and nothing of it is in progress.
pub open spec fn idle_key(m: ProcessorModel, p: Profile, code: u16, name: Seq<char>, device: Seq<char>) -> bool {
    &&& code != KEY_ESC_CODE
    &&& mod_for(p.modifiers@, name, device) is None
    &&& !m.remaps.dom().contains(code)
    &&& !m.pending.dom().contains(code)
    &&& !m.loops.dom().contains(code)
}

/// Pressing a key remapped to a non-empty key combination presses the
/// combination in order; releasing it releases the combination in reverse
/// order, and the engine is back where it started.
pub proof fn law_remap_press_release(
    m: ProcessorModel,
    p: Profile,
    code: u16,
    name: Seq<char>,
    device: Seq<char>,
    t1: u64,
    t2: u64,
    i: int,
)
    requires
        idle_key(m, p, code, name, device),
        immediate_choice(p, name, m.held, device) == Some(i),
        p.assignments@[i].remap_key is Some,
        remap_codes(p.assignments@[i].remap_key->0@).len() > 0,
    ensures
        ({
            let ks = remap_codes(p.assignments@[i].remap_key->0@);
            let (m1, a1) = key_event_spec(m, p, code, name, 1, device, t1);
            let (m2, a2) = key_event_spec(m1, p, code, name, 0, device, t2);
            &&& a1 == emits(ks, 1)
            &&& a2 == emits(ks.reverse(), 0)
            &&& m2 == m
        }),
{
    let ks = remap_codes(p.assignments@[i].remap_key->0@);
    let m1 = ProcessorModel { remaps: m.remaps.insert(code, ks), ..m };
    assert(key_event_spec(m, p, code, name, 1, device, t1).1 =~= emits(ks, 1));
    assert(key_event_spec(m, p, code, name, 1, device, t1).0 == m1);
    assert(m1.remaps.remove(code) =~= m.remaps);
    assert(key_event_spec(m1, p, code, name, 0, device, t2).1 =~= emits(ks.reverse(), 0));
}

/// Pressing a modifier key holds its modifier and sends nothing; releasing
/// it lets the modifier go and sends nothing: the engine is back where it
/// started.
pub proof fn law_modifier_press_release(
    m: ProcessorModel,
    p: Profile,
    code: u16,
    name: Seq<char>,
    device: Seq<char>,
    t1: u64,
    t2: u64,
)
    requires
        code != KEY_ESC_CODE,
        mod_for(p.modifiers@, name, device) is Some,
        !m.held.contains(mod_for(p.modifiers@, name, device)->0),
    ensures
        ({
            let id = mod_for(p.modifiers@, name, device)->0;
            let (m1, a1) = key_event_spec(m, p, code, name, 1, device, t1);
            let (m2, a2) = key_event_spec(m1, p, code, name, 0, device, t2);
            &&& m1.held.contains(id)
            &&& a1.len() == 0
            &&& a2.len() == 0
            &&& m2 == m
        }),
{
    let id = mod_for(p.modifiers@, name, device)->0;
    let m1 = key_event_spec(m, p, code, name, 1, device, t1).0;
    assert(m1 == ProcessorModel { held: m.held.insert(id), ..m });
    assert(m1.held.remove(id) =~= m.held);
    assert(key_event_spec(m, p, code, name, 1, device, t1).1 =~= Seq::<ProcessorAction>::empty());
    assert(key_event_spec(m1, p, code, name, 0, device, t2).1 =~= Seq::<ProcessorAction>::empty());
}

/// A key bound to nothing passes through, both ways, and changes nothing.
pub proof fn law_unbound_key_passes_through(
    m: ProcessorModel,
    p: Profile,
    code: u16,
    name: Seq<char>,
    device: Seq<char>,
    t1: u64,
    t2: u64,
)
    requires
        idle_key(m, p, code, name, device),
        immediate_choice(p, name, m.held, device) is None,
        !has_deferred(p, name, m.held, device),
    ensures
        key_event_spec(m, p, code, name, 1, device, t1) == (m, seq![ProcessorAction::Passthrough]),
        key_event_spec(m, p, code, name, 0, device, t2) == (m, seq![ProcessorAction::Passthrough]),
{
    assert(key_event_spec(m, p, code, name, 1, device, t1).1 =~= seq![ProcessorAction::Passthrough]);
    assert(key_event_spec(m, p, code, name, 0, device, t2).1 =~= seq![ProcessorAction::Passthrough]);
}

/// Pressing a key bound to a loop macro starts the loop; releasing it asks
/// the loop to stop; the engine is back where it started.
pub proof fn law_loop_press_release(
    m: ProcessorModel,
    p: Profile,
    code: u16,
    name: Seq<char>,
    device: Seq<char>,
    t1: u64,
    t2: u64,
    i: int,
    mi: int,
)
    requires
        idle_key(m, p, code, name, device),
        immediate_choice(p, name, m.held, device) == Some(i),
        p.assignments@[i].remap_key is None,
        p.assignments@[i].macro_id is Some,
        macro_index(p.macros@, p.assignments@[i].macro_id->0) == Some(mi),
        p.macros@[mi].fire == FireMode::Loop,
    ensures
        ({
            let (m1, a1) = key_event_spec(m, p, code, name, 1, device, t1);
            let (m2, a2) = key_event_spec(m1, p, code, name, 0, device, t2);
            &&& a1 == seq![ProcessorAction::StartLoop { source_code: code, macro_index: mi as usize }]
            &&& m1.loops.dom().contains(code)
            &&& a2 == seq![ProcessorAction::StopLoop { source_code: code }]
            &&& m2 == m
        }),
{
    let m1 = ProcessorModel { loops: m.loops.insert(code, release_codes(p.macros@[mi])), ..m };
    assert(key_event_spec(m, p, code, name, 1, device, t1).0 == m1);
    assert(key_event_spec(m, p, code, name, 1, device, t1).1 =~= seq![
        ProcessorAction::StartLoop { source_code: code, macro_index: mi as usize },
    ]);
    assert(m1.loops.remove(code) =~= m.loops);
    assert(key_event_spec(m1, p, code, name, 0, device, t2).1 =~= seq![ProcessorAction::StopLoop { source_code: code }]);
}

/// A key whose assignment waits for the release (a timed trigger) sends
/// nothing when pressed; its release runs what the hold time selects, and
/// the engine is back where it started.
pub proof fn law_deferred_press_release(
    m: ProcessorModel,
    p: Profile,
    code: u16,
    name: Seq<char>,
    device: Seq<char>,
    t1: u64,
    t2: u64,
)
    requires
        idle_key(m, p, code, name, device),
        immediate_choice(p, name, m.held, device) is None,
        has_deferred(p, name, m.held, device),
    ensures
        ({
            let (m1, a1) = key_event_spec(m, p, code, name, 1, device, t1);
            let (m2, a2) = key_event_spec(m1, p, code, name, 0, device, t2);
            &&& a1.len() == 0
            &&& m1.pending.dom().contains(code)
            &&& a2 == fire_timed(p, name, m.held, device, elapsed_since(t2, t1))
            &&& m2 == m
        }),
{
    let m1 = ProcessorModel { pending: m.pending.insert(code, (t1, device, m.held)), ..m };
    assert(key_event_spec(m, p, code, name, 1, device, t1).0 == m1);
    assert(key_event_spec(m, p, code, name, 1, device, t1).1 =~= Seq::<ProcessorAction>::empty());
    assert(m1.pending.remove(code) =~= m.pending);
    assert(key_event_spec(m1, p, code, name, 0, device, t2).1 =~= fire_timed(
        p,
        name,
        m.held,
        device,
        elapsed_since(t2, t1),
    ));
}

/// Pressing Escape always starts the emergency-exit timer first, whatever
/// the key is bound to; releasing it stops the timer first.
pub proof fn law_escape_arms_and_disarms(
    m: ProcessorModel,
    p: Profile,
    name: Seq<char>,
    device: Seq<char>,
    t1: u64,
    t2: u64,
)
    ensures
        ({
            let (m1, a1) = key_event_spec(m, p, KEY_ESC_CODE, name, 1, device, t1);
            let (m2, a2) = key_event_spec(m1, p, KEY_ESC_CODE, name, 0, device, t2);
            &&& m1.esc_armed
            &&& a1.len() >= 1 && a1[0] == ProcessorAction::ArmEscExit
            &&& !m2.esc_armed
            &&& a2.len() >= 1 && a2[0] == ProcessorAction::DisarmEscExit
        }),
{
}

/// Events other than keys never change the engine's state.
pub proof fn law_non_key_events_keep_state(
    m: ProcessorModel,
    p: Profile,
    ev_type: u16,
    code: u16,
    value: i32,
    device: Seq<char>,
    now: u64,
)
    requires
        ev_type != EV_KEY,
    ensures
        event_spec(m, p, ev_type, code, value, device, now).0 == m,
{
}

/// Stopping a session releases every key that a held remap holds down.
pub proof fn law_shutdown_releases_remapped_keys(keys: Seq<u16>, remaps: Map<u16, Seq<u16>>, code: u16, k: u16)
    requires
        keys.contains(code),
        remaps[code].contains(k),
    ensures
        remap_shutdown(keys, remaps).contains(ProcessorAction::Emit { code: k, value: 0 }),
    decreases keys.len(),
{
    let last = keys.last();
    let rest = keys.drop_last();
    let tail = emits(remaps[last].reverse(), 0);
    assert(remap_shutdown(keys, remaps) == remap_shutdown(rest, remaps) + tail);
    if last == code {
        let j = choose|j: int| 0 <= j < remaps[code].len() && remaps[code][j] == k;
        let r = remaps[code].reverse();
        let jr = remaps[code].len() - 1 - j;
        assert(r[jr] == k);
        assert(tail[jr] == ProcessorAction::Emit { code: k, value: 0 });
        assert((remap_shutdown(rest, remaps) + tail)[remap_shutdown(rest, remaps).len() + jr] == tail[jr]);
    } else {
        let w = choose|w: int| 0 <= w < keys.len() && keys[w] == code;
        assert(w < keys.len() - 1);
        assert(rest[w] == code);
        law_shutdown_releases_remapped_keys(rest, remaps, code, k);
        let q = choose|q: int|
            0 <= q < remap_shutdown(rest, remaps).len() && remap_shutdown(rest, remaps)[q] == ProcessorAction::Emit {
                code: k,
                value: 0,
            };
        assert((remap_shutdown(rest, remaps) + tail)[q] == remap_shutdown(rest, remaps)[q]);
    }
}

/// Once the scanner finds a game, the next look at the same processes keeps
/// following that profile without reporting anything new (profile
/// identifiers being distinct).
pub proof fn law_found_then_monitoring(profiles: Seq<Profile>, procs: Seq<Seq<char>>)
    requires
        first_matching(profiles, procs) is Some,
        forall|a: int, b: int| 0 <= a < b < profiles.len() ==> profiles[a].id != profiles[b].id,
    ensures
        ({
            let (mon, ev, _) = scan_spec(profiles, None, procs);
            &&& ev matches Some(DetectEvent::Found(id)) && mon == Some(id)
            &&& scan_spec(profiles, mon, procs) == (mon, None::<DetectEvent>, AUTODETECT_MONITOR_INTERVAL_MS)
        }),
{
    let i = first_matching(profiles, procs)->0;
    crate::engine::detect::lemma_first_matching_facts(profiles, procs);
    crate::engine::detect::lemma_profile_index_unique(profiles, i);
}

/// When the detected game is gone from the processes, the scanner reports
/// the loss once, pauses, and goes back to searching, where it never
/// reports a loss (profile identifiers being distinct).
pub proof fn law_closed_game_reported_lost(profiles: Seq<Profile>, before: Seq<Seq<char>>, after: Seq<Seq<char>>)
    requires
        first_matching(profiles, before) is Some,
        !profile_matches_spec(profiles[first_matching(profiles, before)->0], after),
        forall|a: int, b: int| 0 <= a < b < profiles.len() ==> profiles[a].id != profiles[b].id,
    ensures
        ({
            let (mon, _, _) = scan_spec(profiles, None, before);
            scan_spec(profiles, mon, after) == (None::<u128>, Some(DetectEvent::Lost), AUTODETECT_LOST_PAUSE_MS)
        }),
        forall|procs: Seq<Seq<char>>| #[trigger] scan_spec(profiles, None, procs).1 != Some(DetectEvent::Lost),
{
    let i = first_matching(profiles, before)->0;
    crate::engine::detect::lemma_first_matching_facts(profiles, before);
    crate::engine::detect::lemma_profile_index_unique(profiles, i);
}

/// A run after `n` moves with the stop request set.
pub open spec fn run_stopped(m: RunnerModel, n: nat) -> RunnerModel
    decreases n,
{
    if n == 0 {
        m
    } else {
        run_stopped(runner_step(m, true).0, (n - 1) as nat)
    }
}

/// A macro that fires once does its start delay, then its body once, and
/// is over, whatever the stop request says.
pub proof fn law_single_macro_runs_once(m: RunnerModel, s1: bool, s2: bool, s3: bool)
    requires
        !m.plan.is_loop,
        m.phase == RunPhase::Start,
    ensures
        ({
            let (m1, b1) = runner_step(m, s1);
            let (m2, b2) = runner_step(m1, s2);
            let (m3, b3) = runner_step(m2, s3);
            &&& b1 == Some(m.plan.start)
            &&& b2 == Some(m.plan.pre + m.plan.body)
            &&& m2.phase == RunPhase::Done
            &&& b3 is None
        }),
{
}

/// Once a loop started by a key (with its events) is asked to stop, the run
/// is over within six moves, and then gives nothing more.
pub proof fn law_stop_finishes_run(m: RunnerModel)
    requires
        m.plan.with_events || !m.plan.is_loop,
    ensures
        run_stopped(m, 6).phase == RunPhase::Done,
        runner_step(run_stopped(m, 6), true).1 is None,
{
    reveal_with_fuel(run_stopped, 7);
}


/// Between two iterations of a loop macro the run waits the macro's own loop
/// delay, when it is positive, and nothing else: with loop events, after
/// the body and the cycle events; without them, right after the body. Its
/// start delay is waited once, before the first iteration.
pub proof fn law_loop_waits_loop_delay(p: Profile, mi: int, with_events: bool, cycles: u64, s1: bool, s2: bool)
    requires
        0 <= mi < p.macros@.len(),
        p.macros@[mi].fire == FireMode::Loop,
    ensures
        ({
            let mac = p.macros@[mi];
            let gap = if mac.loop_delay_ms > 0 {
                seq![MacroStep::Sleep(mac.loop_delay_ms as u64)]
            } else {
                seq![]
            };
            let start = RunnerModel { plan: plan_spec(p, mi, with_events), phase: RunPhase::Start, cycles: 0 };
            let m = RunnerModel { plan: plan_spec(p, mi, with_events), phase: RunPhase::Iterate, cycles };
            let (m1, _b1) = runner_step(m, s1);
            let (m2, b2) = runner_step(m1, s2);
            let (m3, b3) = runner_step(m2, false);
            let (m4, b4) = runner_step(m3, false);
            &&& runner_step(start, s1).1 == Some(
                if mac.start_delay_ms > 0 {
                    seq![MacroStep::Sleep(mac.start_delay_ms as u64)]
                } else {
                    seq![]
                },
            )
            &&& runner_step(start, s1).0.phase == RunPhase::Iterate
            &&& with_events ==> {
                &&& b3 == Some(gap)
                &&& b4 == Some(Seq::<MacroStep>::empty())
                &&& m4.phase == RunPhase::Iterate
            }
            &&& !with_events ==> {
                &&& b2 == Some(gap)
                &&& m2.phase == RunPhase::Iterate
            }
        }),
{
}

} // verus!
