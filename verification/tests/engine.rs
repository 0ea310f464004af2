use gameremap::config::{
    AdvancedEvent, AdvancedStep, FireMode, KeyAssignment, LoopEvent, Macro, ModifierKey, Profile, SimpleStep,
    StepMode, TriggerMode,
};
use gameremap::engine::detect::{cmdline_text, find_profile, profile_matches, scanner_step, DetectEvent};
use gameremap::engine::keysets::{device_is_relevant, macro_release_keys, output_key_codes, source_key_codes};
use gameremap::engine::log::{clear_engine_log, drain_engine_log, engine_log, log_line, set_engine_logging, EngineLog};
use gameremap::engine::matching::{classify_hold, find_assignment, has_deferred_trigger};
use gameremap::engine::processor::{EventProcessor, ProcessorAction};
use gameremap::engine::schedule::{MacroRunner, MacroStep};
use gameremap::keys::{key_name, KeyTable};
use gameremap::editor::recording::{buf_to_advanced_steps, RecordedKey};

const KEY_ESC: u16 = 1;
const KEY_Q: u16 = 16;
const KEY_A: u16 = 30;
const KEY_C: u16 = 46;
const KEY_B: u16 = 48;
const KEY_LEFTCTRL: u16 = 29;
const KEY_LEFTALT: u16 = 56;
const BTN_LEFT: u16 = 0x110;

fn dev() -> String {
    "Keyboard".to_string()
}

fn remap(source: &str, target: &str) -> KeyAssignment {
    let mut a = KeyAssignment::new(source.to_string());
    a.remap_key = Some(target.to_string());
    a
}

fn simple_macro(name: &str, fire: FireMode, steps: Vec<SimpleStep>) -> Macro {
    let mut m = Macro::new(name.to_string());
    m.fire = fire;
    m.simple_steps = steps;
    m
}

fn step(action: &str, hold_ms: u32, delay_after_ms: u32) -> SimpleStep {
    SimpleStep { action: action.to_string(), hold_ms, delay_after_ms }
}

fn press(p: &mut EventProcessor, code: u16, t: u64) -> Vec<ProcessorAction> {
    p.handle_event(1, code, 1, &dev(), t)
}

fn release(p: &mut EventProcessor, code: u16, t: u64) -> Vec<ProcessorAction> {
    p.handle_event(1, code, 0, &dev(), t)
}

fn emit(code: u16, value: i32) -> ProcessorAction {
    ProcessorAction::Emit { code, value }
}

// ── Key names ─────────────────────────────────────────────────────────────────

#[test]
fn key_names_and_lookup() {
    let t = KeyTable::new();
    assert_eq!(key_name(KEY_A), "KEY_A");
    assert_eq!(key_name(0x290), "KEY_MACRO1");
    assert_eq!(key_name(0x2AD), "KEY_MACRO30");
    assert_eq!(t.parse_key("KEY_A"), Some(KEY_A));
    assert_eq!(t.parse_key("BTN_LEFT"), Some(BTN_LEFT));
    assert_eq!(t.parse_key("KEY_MACRO1"), Some(0x290));
    assert_eq!(t.parse_key("KEY_MACRO30"), Some(0x2AD));
    assert_eq!(t.parse_key("KEY_MACRO31"), None);
    assert_eq!(t.parse_key("NOT_A_KEY"), None);
    // The canonical name of a code resolves back to it.
    for code in [KEY_ESC, KEY_Q, KEY_A, BTN_LEFT, 0x290, 0x29A] {
        assert_eq!(t.parse_key(&key_name(code)), Some(code));
    }
}

// ── The remap engine ──────────────────────────────────────────────────────────

#[test]
fn remap_presses_combination_and_releases_in_reverse() {
    let mut prof = Profile::new("p".to_string());
    prof.assignments.push(remap("KEY_A", "KEY_LEFTCTRL+KEY_C"));
    let mut p = EventProcessor::new(prof);
    assert_eq!(press(&mut p, KEY_A, 0), vec![emit(KEY_LEFTCTRL, 1), emit(KEY_C, 1)]);
    // Auto-repeat is dropped.
    assert_eq!(p.handle_event(1, KEY_A, 2, &dev(), 5), vec![]);
    assert_eq!(release(&mut p, KEY_A, 10), vec![emit(KEY_C, 0), emit(KEY_LEFTCTRL, 0)]);
    // Afterwards the key is remapped afresh.
    assert_eq!(press(&mut p, KEY_A, 20), vec![emit(KEY_LEFTCTRL, 1), emit(KEY_C, 1)]);
}

#[test]
fn unbound_keys_and_motion_pass_through() {
    let mut prof = Profile::new("p".to_string());
    prof.assignments.push(remap("KEY_A", "KEY_B"));
    let mut p = EventProcessor::new(prof);
    assert_eq!(press(&mut p, KEY_Q, 0), vec![ProcessorAction::Passthrough]);
    assert_eq!(release(&mut p, KEY_Q, 1), vec![ProcessorAction::Passthrough]);
    // Relative motion and sync pass through; other event types are dropped.
    assert_eq!(p.handle_event(2, 0, 5, &dev(), 2), vec![ProcessorAction::Passthrough]);
    assert_eq!(p.handle_event(0, 0, 0, &dev(), 2), vec![ProcessorAction::Passthrough]);
    assert_eq!(p.handle_event(4, 4, 30, &dev(), 2), vec![]);
}

#[test]
fn modifier_layer_changes_the_binding() {
    let mut prof = Profile::new("p".to_string());
    let alt = ModifierKey::new("KEY_LEFTALT".to_string(), "Alt".to_string());
    let alt_id = alt.id;
    prof.modifiers.push(alt);
    let mut layered = remap("KEY_A", "KEY_B");
    layered.modifiers = vec![alt_id];
    prof.assignments.push(layered);
    let mut p = EventProcessor::new(prof);
    // Without the modifier the key is not bound.
    assert_eq!(press(&mut p, KEY_A, 0), vec![ProcessorAction::Passthrough]);
    assert_eq!(release(&mut p, KEY_A, 1), vec![ProcessorAction::Passthrough]);
    // The modifier itself sends nothing.
    assert_eq!(press(&mut p, KEY_LEFTALT, 2), vec![]);
    assert_eq!(press(&mut p, KEY_A, 3), vec![emit(KEY_B, 1)]);
    assert_eq!(release(&mut p, KEY_A, 4), vec![emit(KEY_B, 0)]);
    assert_eq!(release(&mut p, KEY_LEFTALT, 5), vec![]);
    assert_eq!(press(&mut p, KEY_A, 6), vec![ProcessorAction::Passthrough]);
}

#[test]
fn more_specific_assignment_wins() {
    let mut prof = Profile::new("p".to_string());
    let alt = ModifierKey::new("KEY_LEFTALT".to_string(), "Alt".to_string());
    let alt_id = alt.id;
    prof.modifiers.push(alt);
    let mut layered = remap("KEY_A", "KEY_C");
    layered.modifiers = vec![alt_id];
    prof.assignments.push(layered);
    prof.assignments.push(remap("KEY_A", "KEY_B"));
    let name = "KEY_A".to_string();
    assert_eq!(find_assignment(&prof, &name, &[], &dev()), Some(1));
    assert_eq!(find_assignment(&prof, &name, &[alt_id], &dev()), Some(0));
}

#[test]
fn escape_arms_and_disarms_the_exit_timer() {
    let prof = Profile::new("p".to_string());
    let mut p = EventProcessor::new(prof);
    assert_eq!(press(&mut p, KEY_ESC, 0), vec![ProcessorAction::ArmEscExit, ProcessorAction::Passthrough]);
    assert_eq!(release(&mut p, KEY_ESC, 100), vec![ProcessorAction::DisarmEscExit, ProcessorAction::Passthrough]);
    // A release without an armed timer only passes through.
    assert_eq!(release(&mut p, KEY_ESC, 200), vec![ProcessorAction::Passthrough]);
}

#[test]
fn single_and_loop_macros() {
    let mut prof = Profile::new("p".to_string());
    let once = simple_macro("once", FireMode::Single, vec![step("KEY_Q", 10, 0)]);
    let looping = simple_macro("loop", FireMode::Loop, vec![step("BTN_LEFT", 0, 5)]);
    let mut a = KeyAssignment::new("KEY_A".to_string());
    a.macro_id = Some(once.id);
    let mut b = KeyAssignment::new("KEY_B".to_string());
    b.macro_id = Some(looping.id);
    prof.macros.push(once);
    prof.macros.push(looping);
    prof.assignments.push(a);
    prof.assignments.push(b);
    let mut p = EventProcessor::new(prof);
    assert_eq!(press(&mut p, KEY_A, 0), vec![ProcessorAction::RunMacro { macro_index: 0 }]);
    assert_eq!(release(&mut p, KEY_A, 1), vec![ProcessorAction::Passthrough]);
    assert_eq!(press(&mut p, KEY_B, 2), vec![ProcessorAction::StartLoop { source_code: KEY_B, macro_index: 1 }]);
    assert_eq!(release(&mut p, KEY_B, 3), vec![ProcessorAction::StopLoop { source_code: KEY_B }]);
}

#[test]
fn timed_triggers_fire_on_release_by_hold_time() {
    let mut prof = Profile::new("p".to_string());
    let quick = simple_macro("quick", FireMode::Single, vec![step("KEY_Q", 0, 0)]);
    let long = simple_macro("long", FireMode::Single, vec![step("KEY_B", 0, 0)]);
    let mut a = KeyAssignment::new("KEY_A".to_string());
    a.macro_id = Some(quick.id);
    a.trigger_mode = TriggerMode::QuickPress;
    let mut b = KeyAssignment::new("KEY_A".to_string());
    b.macro_id = Some(long.id);
    b.trigger_mode = TriggerMode::ShortHold;
    prof.macros.push(quick);
    prof.macros.push(long);
    prof.assignments.push(a);
    prof.assignments.push(b);
    assert!(has_deferred_trigger(&prof, &"KEY_A".to_string(), &[], &dev()));
    let mut p = EventProcessor::new(prof);
    assert_eq!(press(&mut p, KEY_A, 1000), vec![]);
    assert_eq!(release(&mut p, KEY_A, 1100), vec![ProcessorAction::RunMacro { macro_index: 0 }]);
    assert_eq!(press(&mut p, KEY_A, 2000), vec![]);
    assert_eq!(release(&mut p, KEY_A, 2300), vec![ProcessorAction::RunMacro { macro_index: 1 }]);
    // Held too long: nothing fires.
    assert_eq!(press(&mut p, KEY_A, 3000), vec![]);
    assert_eq!(release(&mut p, KEY_A, 3600), vec![]);
    assert_eq!(classify_hold(0), Some(TriggerMode::QuickPress));
    assert_eq!(classify_hold(249), Some(TriggerMode::QuickPress));
    assert_eq!(classify_hold(250), Some(TriggerMode::ShortHold));
    assert_eq!(classify_hold(499), Some(TriggerMode::ShortHold));
    assert_eq!(classify_hold(500), None);
}

#[test]
fn stopping_releases_held_keys() {
    let mut prof = Profile::new("p".to_string());
    prof.assignments.push(remap("KEY_A", "KEY_LEFTCTRL+KEY_C"));
    let looping = simple_macro("loop", FireMode::Loop, vec![step("KEY_Q", 0, 5)]);
    let mut b = KeyAssignment::new("KEY_B".to_string());
    b.macro_id = Some(looping.id);
    prof.macros.push(looping);
    prof.assignments.push(b);
    let mut p = EventProcessor::new(prof);
    press(&mut p, KEY_A, 0);
    press(&mut p, KEY_B, 1);
    let out = p.shutdown();
    assert_eq!(
        out,
        vec![
            ProcessorAction::AbortLoop { source_code: KEY_B },
            emit(KEY_Q, 0),
            emit(KEY_C, 0),
            emit(KEY_LEFTCTRL, 0),
        ]
    );
    // Nothing is held any more.
    assert_eq!(p.shutdown(), vec![]);
    assert_eq!(release(&mut p, KEY_A, 2), vec![ProcessorAction::Passthrough]);
}

// ── Key sets of a session ─────────────────────────────────────────────────────

#[test]
fn session_key_sets() {
    let t = KeyTable::new();
    let mut prof = Profile::new("p".to_string());
    prof.modifiers.push(ModifierKey::new("KEY_LEFTALT".to_string(), "Alt".to_string()));
    prof.assignments.push(remap("KEY_A", "KEY_LEFTCTRL+KEY_C"));
    prof.assignments.push(KeyAssignment::new("KEY_MACRO1".to_string()));
    prof.macros.push(simple_macro("m", FireMode::Single, vec![step("KEY_Q", 0, 0), step("NOPE", 0, 0)]));
    let mut src = source_key_codes(&t, &prof);
    src.sort();
    assert_eq!(src, vec![KEY_A, KEY_LEFTALT, 0x290]);
    let mut out = output_key_codes(&t, &prof);
    out.sort();
    out.dedup();
    assert_eq!(out, vec![KEY_Q, KEY_LEFTCTRL, KEY_C]);
    assert!(device_is_relevant(&[KEY_Q, KEY_A], &src));
    assert!(!device_is_relevant(&[KEY_Q, KEY_B], &src));
}

#[test]
fn release_keys_of_a_macro() {
    let t = KeyTable::new();
    let m = simple_macro("m", FireMode::Loop, vec![step("KEY_Q", 0, 0), step("KEY_A", 0, 0), step("KEY_Q", 0, 0)]);
    assert_eq!(macro_release_keys(&t, &m), vec![KEY_Q, KEY_A]);
    let mut adv = Macro::new("adv".to_string());
    adv.mode = StepMode::Advanced;
    adv.advanced_steps = vec![
        AdvancedStep { event: AdvancedEvent::MouseDown, key: "BTN_LEFT".to_string(), time_ms: 0 },
        AdvancedStep { event: AdvancedEvent::MouseUp, key: "BTN_LEFT".to_string(), time_ms: 10 },
        AdvancedStep { event: AdvancedEvent::KeyDown, key: "KEY_B".to_string(), time_ms: 20 },
    ];
    assert_eq!(macro_release_keys(&t, &adv), vec![BTN_LEFT, KEY_B]);
}

// ── Macro runs ────────────────────────────────────────────────────────────────

fn run_batches(profile: &Profile, index: usize, with_events: bool, stops: &[bool]) -> Vec<Option<Vec<MacroStep>>> {
    let t = KeyTable::new();
    let mut r = MacroRunner::new(&t, profile, index, with_events);
    stops.iter().map(|&s| r.next_batch(s)).collect()
}

#[test]
fn lasgun_loop_holds_for_the_configured_time() {
    let mut prof = Profile::new("p".to_string());
    let mut mac = Macro::new("lasgun".to_string());
    mac.fire = FireMode::Loop;
    mac.mode = StepMode::Advanced;
    mac.advanced_steps = vec![
        AdvancedStep { event: AdvancedEvent::MouseDown, key: "BTN_LEFT".to_string(), time_ms: 25 },
        AdvancedStep { event: AdvancedEvent::MouseUp, key: "BTN_LEFT".to_string(), time_ms: 800 },
    ];
    prof.macros.push(mac);
    let body = vec![
        MacroStep::MarkStart,
        MacroStep::WaitUntil(25),
        MacroStep::Emit { code: BTN_LEFT, value: 1 },
        MacroStep::WaitUntil(800),
        MacroStep::Emit { code: BTN_LEFT, value: 0 },
    ];
    let batches = run_batches(&prof, 0, false, &[false; 6]);
    assert_eq!(batches[0], Some(vec![]));
    assert_eq!(batches[1], Some(body.clone()));
    assert_eq!(batches[2], Some(vec![]));
    assert_eq!(batches[3], Some(body.clone()));
    assert_eq!(batches[4], Some(vec![]));
    assert_eq!(batches[5], Some(body));
}

#[test]
fn fast_fire_steps() {
    let mut prof = Profile::new("p".to_string());
    prof.macros.push(simple_macro("fast", FireMode::Loop, vec![step("BTN_LEFT", 0, 5)]));
    prof.macros.push(simple_macro("held", FireMode::Loop, vec![step("BTN_LEFT", 30, 5)]));
    let fast = run_batches(&prof, 0, false, &[false, false]);
    assert_eq!(
        fast[1],
        Some(vec![
            MacroStep::Emit { code: BTN_LEFT, value: 1 },
            MacroStep::Emit { code: BTN_LEFT, value: 0 },
            MacroStep::Sleep(5),
        ])
    );
    let held = run_batches(&prof, 1, false, &[false, false]);
    assert_eq!(
        held[1],
        Some(vec![
            MacroStep::Emit { code: BTN_LEFT, value: 1 },
            MacroStep::Sleep(30),
            MacroStep::Emit { code: BTN_LEFT, value: 0 },
            MacroStep::Sleep(5),
        ])
    );
}

#[test]
fn single_macro_runs_once() {
    let mut prof = Profile::new("p".to_string());
    let mut m = simple_macro("once", FireMode::Single, vec![step("KEY_Q", 10, 20)]);
    m.start_delay_ms = 50;
    prof.macros.push(m);
    let b = run_batches(&prof, 0, true, &[false, false, false, false]);
    assert_eq!(b[0], Some(vec![MacroStep::Sleep(50)]));
    assert_eq!(
        b[1],
        Some(vec![
            MacroStep::Emit { code: KEY_Q, value: 1 },
            MacroStep::Sleep(10),
            MacroStep::Emit { code: KEY_Q, value: 0 },
            MacroStep::Sleep(20),
        ])
    );
    assert_eq!(b[2], None);
    assert_eq!(b[3], None);
}

#[test]
fn loop_events_run_and_stop_ends_the_loop() {
    let mut prof = Profile::new("p".to_string());
    let pre = simple_macro("pre", FireMode::Single, vec![step("KEY_A", 0, 0)]);
    let every2 = simple_macro("every2", FireMode::Single, vec![step("KEY_B", 0, 0)]);
    let end = simple_macro("end", FireMode::Single, vec![step("KEY_C", 0, 0)]);
    let mut main = simple_macro("main", FireMode::Loop, vec![step("KEY_Q", 0, 0)]);
    main.events = vec![
        LoopEvent { id: 1, macro_id: pre.id, order: 0, min_loops: 0, delay_ms: 0 },
        LoopEvent { id: 2, macro_id: every2.id, order: 2, min_loops: 0, delay_ms: 0 },
        LoopEvent { id: 3, macro_id: end.id, order: -1, min_loops: 2, delay_ms: 7 },
    ];
    prof.macros.push(main);
    prof.macros.push(pre);
    prof.macros.push(every2);
    prof.macros.push(end);
    let t = KeyTable::new();
    let mut r = MacroRunner::new(&t, &prof, 0, true);
    let tap = |k: u16| vec![MacroStep::Emit { code: k, value: 1 }, MacroStep::Emit { code: k, value: 0 }];
    assert_eq!(r.next_batch(false), Some(vec![]));
    let mut body = tap(KEY_A);
    body.extend(tap(KEY_Q));
    assert_eq!(r.next_batch(false), Some(body.clone()));
    assert_eq!(r.next_batch(false), Some(vec![])); // cycle 1: no cycle event due
    assert_eq!(r.cycles(), 1);
    assert_eq!(r.next_batch(false), Some(vec![]));
    assert_eq!(r.next_batch(false), Some(vec![]));
    assert_eq!(r.next_batch(false), Some(body));
    assert_eq!(r.next_batch(false), Some(tap(KEY_B))); // cycle 2
    assert_eq!(r.next_batch(true), Some(vec![])); // stop requested
    let mut end_steps = vec![MacroStep::Sleep(7)];
    end_steps.extend(tap(KEY_C));
    assert_eq!(r.next_batch(true), Some(end_steps)); // two cycles ran: the end event fires
    assert_eq!(r.next_batch(true), None);
}

// ── Auto-detect ───────────────────────────────────────────────────────────────

fn detect_profile(name: &str, fragments: &[&str]) -> Profile {
    let mut p = Profile::new(name.to_string());
    let mut t = gameremap::config::AutoDetectTarget::new();
    t.fragments = fragments.iter().map(|f| f.to_string()).collect();
    p.auto_detect.push(t);
    p
}

#[test]
fn detection_finds_then_loses_a_game() {
    let profiles = vec![detect_profile("a", &["Darktide"]), detect_profile("b", &["steam", "Witcher3"])];
    let procs = vec!["/usr/bin/steam".to_string(), "Z:\\Games\\witcher3.exe".to_string()];
    assert!(!profile_matches(&profiles[0], &procs));
    assert!(profile_matches(&profiles[1], &procs));
    let d = scanner_step(&profiles, None, &procs);
    assert_eq!(d.event, Some(DetectEvent::Found(profiles[1].id)));
    assert_eq!(d.monitoring, Some(profiles[1].id));
    assert_eq!(d.sleep_ms, 0);
    let d2 = scanner_step(&profiles, d.monitoring, &procs);
    assert_eq!(d2.event, None);
    assert_eq!(d2.monitoring, d.monitoring);
    assert_eq!(d2.sleep_ms, 30_000);
    let d3 = scanner_step(&profiles, d2.monitoring, &vec![]);
    assert_eq!(d3.event, Some(DetectEvent::Lost));
    assert_eq!(d3.monitoring, None);
    assert_eq!(d3.sleep_ms, 2_000);
    let d4 = scanner_step(&profiles, None, &vec![]);
    assert_eq!(d4.event, None);
    assert_eq!(d4.sleep_ms, 10_000);
    assert_eq!(find_profile(&profiles, profiles[1].id), Some(1));
    assert_eq!(find_profile(&profiles, 7), None);
}

#[test]
fn empty_targets_never_match() {
    let p = detect_profile("a", &[]);
    assert!(!profile_matches(&p, &vec!["anything".to_string()]));
    assert!(!profile_matches(&Profile::new("b".to_string()), &vec!["anything".to_string()]));
}

#[test]
fn cmdline_arguments_are_space_separated() {
    assert_eq!(cmdline_text(b"/usr/bin/game\0--fullscreen\0"), "/usr/bin/game --fullscreen ");
    assert_eq!(cmdline_text(b""), "");
}

// ── Engine log ────────────────────────────────────────────────────────────────

#[test]
fn engine_log_keeps_the_last_lines_when_enabled() {
    let mut log = EngineLog::new();
    engine_log(&mut log, "ignored".to_string());
    assert!(drain_engine_log(&mut log).is_empty());
    set_engine_logging(&mut log, true);
    for i in 0..505 {
        engine_log(&mut log, format!("line {i}"));
    }
    let lines = drain_engine_log(&mut log);
    assert_eq!(lines.len(), 500);
    assert_eq!(lines[0], "line 5");
    assert_eq!(lines[499], "line 504");
    assert!(drain_engine_log(&mut log).is_empty());
    engine_log(&mut log, "x".to_string());
    clear_engine_log(&mut log);
    assert!(drain_engine_log(&mut log).is_empty());
    assert_eq!(log_line(42, "hello"), "[      42ms] hello");
    assert_eq!(log_line(123456789, "x"), "[123456789ms] x");
}

#[test]
fn recorded_macro_replays_the_recording() {
    let buf = vec![
        RecordedKey { name: "KEY_A".to_string(), pressed: true, elapsed_ms: 5 },
        RecordedKey { name: "BTN_LEFT".to_string(), pressed: true, elapsed_ms: 40 },
        RecordedKey { name: "KEY_A".to_string(), pressed: false, elapsed_ms: 90 },
        RecordedKey { name: "BTN_LEFT".to_string(), pressed: false, elapsed_ms: 120 },
    ];
    let mut prof = Profile::new("p".to_string());
    let mut mac = Macro::new("rec".to_string());
    mac.mode = StepMode::Advanced;
    mac.advanced_steps = buf_to_advanced_steps(&buf);
    prof.macros.push(mac);
    let batches = run_batches(&prof, 0, false, &[false, false, false]);
    assert_eq!(batches[0], Some(vec![]));
    assert_eq!(
        batches[1],
        Some(vec![
            MacroStep::MarkStart,
            MacroStep::WaitUntil(5),
            MacroStep::Emit { code: KEY_A, value: 1 },
            MacroStep::WaitUntil(40),
            MacroStep::Emit { code: BTN_LEFT, value: 1 },
            MacroStep::WaitUntil(90),
            MacroStep::Emit { code: KEY_A, value: 0 },
            MacroStep::WaitUntil(120),
            MacroStep::Emit { code: BTN_LEFT, value: 0 },
        ])
    );
    assert_eq!(batches[2], None);
}

// ── Macro timing on a virtual clock ───────────────────────────────────────────

/// Runs a macro against a clock that only the steps move, for `window_ms`
/// milliseconds, and returns the key events with their times.
fn run_for(profile: &Profile, index: usize, window_ms: u64) -> Vec<(u64, u16, i32)> {
    let t = KeyTable::new();
    let mut r = MacroRunner::new(&t, profile, index, true);
    let (mut now, mut mark) = (0u64, 0u64);
    let mut events = Vec::new();
    for _ in 0..100_000 {
        let Some(steps) = r.next_batch(false) else { break };
        for step in steps {
            match step {
                MacroStep::Sleep(ms) => now += ms,
                MacroStep::WaitUntil(ms) => now = now.max(mark + ms),
                MacroStep::MarkStart => mark = now,
                MacroStep::Emit { code, value } => {
                    if now > window_ms {
                        return events;
                    }
                    events.push((now, code, value));
                }
            }
        }
        if now > window_ms {
            break;
        }
    }
    events
}

fn loop_profile(mac: Macro) -> Profile {
    let mut p = Profile::new("p".to_string());
    p.macros.push(mac);
    p
}

fn holds(events: &[(u64, u16, i32)]) -> (Vec<u64>, Vec<u64>) {
    let downs: Vec<u64> = events.iter().filter(|e| e.2 == 1).map(|e| e.0).collect();
    let ups: Vec<u64> = events.iter().filter(|e| e.2 == 0).map(|e| e.0).collect();
    (downs, ups)
}

#[test]
fn macro_lasgun_loop_timing() {
    let mut mac = Macro::new("test".to_string());
    mac.fire = FireMode::Loop;
    mac.mode = StepMode::Advanced;
    mac.advanced_steps = vec![
        AdvancedStep { event: AdvancedEvent::MouseDown, key: "BTN_LEFT".to_string(), time_ms: 25 },
        AdvancedStep { event: AdvancedEvent::MouseUp, key: "BTN_LEFT".to_string(), time_ms: 800 },
    ];
    let events = run_for(&loop_profile(mac), 0, 2600);
    assert!(events.len() >= 6, "too few events: got {}", events.len());
    let (downs, ups) = holds(&events);
    for (&d, &u) in downs.iter().zip(ups.iter()) {
        let hold = u.saturating_sub(d);
        assert!((725..=825).contains(&hold), "hold {hold}ms outside [725, 825]ms");
    }
}

#[test]
fn macro_fast_fire_timing() {
    let mut mac = Macro::new("test".to_string());
    mac.fire = FireMode::Loop;
    mac.simple_steps = vec![SimpleStep { action: "BTN_LEFT".to_string(), hold_ms: 0, delay_after_ms: 5 }];
    let events = run_for(&loop_profile(mac), 0, 200);
    assert!(events.len() >= 20, "too few events: got {}", events.len());
    let (downs, ups) = holds(&events);
    for (&d, &u) in downs.iter().zip(ups.iter()) {
        assert!(u.saturating_sub(d) < 10);
    }
    for i in 0..ups.len().saturating_sub(1) {
        let gap = downs[i + 1].saturating_sub(ups[i]);
        assert!(gap <= 30, "gap {gap}ms between cycle {i} and {} is too large", i + 1);
    }
}

#[test]
fn macro_fast_fire_with_hold() {
    let mut mac = Macro::new("test".to_string());
    mac.fire = FireMode::Loop;
    mac.simple_steps = vec![SimpleStep { action: "BTN_LEFT".to_string(), hold_ms: 30, delay_after_ms: 5 }];
    let events = run_for(&loop_profile(mac), 0, 300);
    assert!(events.len() >= 10, "too few events: got {}", events.len());
    let (downs, ups) = holds(&events);
    for (&d, &u) in downs.iter().zip(ups.iter()) {
        let hold = u.saturating_sub(d);
        assert!((15..=45).contains(&hold), "hold {hold}ms outside [15, 45]ms");
    }
}

#[test]
fn key_names_resolve_back_to_their_codes() {
    let t = KeyTable::new();
    for code in [1u16, 30, 0x110, 0x290, 0x2AD] {
        assert!(t.names_back_to(code), "code {code:#x}");
        assert_eq!(t.parse_key(&key_name(code)), Some(code));
    }
    assert_eq!(key_name(0x2AD), "KEY_MACRO30");
}
