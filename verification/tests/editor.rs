use gameremap::config::{
    AdvancedEvent, FireMode, GameLink, KeyAssignment, Macro, ModifierKey, Profile, SimpleStep, StepMode, TriggerMode,
};
use gameremap::engine::detect::DetectEvent;
use gameremap::editor::edits::{
    add_fragment, clear_assignment_target, delete_macro, delete_modifier, event_targets, link_from_draft, move_up,
    new_loop_event, process_from_text, restore_default_blocked, selection_after_delete, set_step_mode, set_target_macro,
};
use gameremap::editor::labels::{
    auto_switch_label, game_link_summary, macro_target_name, remap_label, shows_trigger, source_label, steam_id_from_text,
};
use gameremap::editor::recording::{
    buf_to_advanced_steps, buf_to_simple_steps, learn_key_event, record_event, RecordMsg, RecordedKey,
};
use gameremap::editor::state::{DetectAction, Editor, RecordOutcome};
use gameremap::editor::{
    assignment_guard, is_blocked, is_duplicate_assignment, split_learned, trigger_mode_label, trigger_mode_tooltip,
    LearnTarget,
};

fn rk(name: &str, pressed: bool, elapsed_ms: u32) -> RecordedKey {
    RecordedKey { name: name.to_string(), pressed, elapsed_ms }
}

fn chars(s: &str) -> Vec<char> {
    s.chars().collect()
}

fn editor_with(profile: Profile) -> Editor {
    let mut e = Editor::new(vec![profile], false);
    e.selected = Some(0);
    e
}

// ── Labels ────────────────────────────────────────────────────────────────────

#[test]
fn trigger_mode_labels_and_tooltips() {
    assert_eq!(trigger_mode_label(&TriggerMode::Any), "Any");
    assert_eq!(trigger_mode_label(&TriggerMode::QuickPress), "Short");
    assert_eq!(trigger_mode_label(&TriggerMode::ShortHold), "Long");
    assert_eq!(trigger_mode_tooltip(&TriggerMode::Any), "Fire on any press duration");
    assert_eq!(trigger_mode_tooltip(&TriggerMode::QuickPress), "Short press: < 250 ms");
    assert_eq!(trigger_mode_tooltip(&TriggerMode::ShortHold), "Long press: 250–500 ms");
}

// ── Recording ─────────────────────────────────────────────────────────────────

#[test]
fn recording_to_simple_steps() {
    let buf = vec![
        rk("KEY_A", true, 100),
        rk("KEY_A", false, 150),
        rk("KEY_B", true, 400),
        rk("KEY_B", false, 420),
        rk("KEY_C", true, 390),
    ];
    let steps = buf_to_simple_steps(&buf);
    let got: Vec<(String, u32, u32)> = steps.iter().map(|s| (s.action.clone(), s.hold_ms, s.delay_after_ms)).collect();
    assert_eq!(
        got,
        vec![("KEY_A".to_string(), 0, 300), ("KEY_B".to_string(), 0, 0), ("KEY_C".to_string(), 0, 0)]
    );
    assert!(buf_to_simple_steps(&[]).is_empty());
}

#[test]
fn recording_to_advanced_steps() {
    let buf = vec![rk("BTN_LEFT", true, 10), rk("KEY_Q", true, 20), rk("KEY_Q", false, 30), rk("BTN_LEFT", false, 40)];
    let steps = buf_to_advanced_steps(&buf);
    let got: Vec<(AdvancedEvent, String, u32)> = steps.iter().map(|s| (s.event, s.key.clone(), s.time_ms)).collect();
    assert_eq!(
        got,
        vec![
            (AdvancedEvent::MouseDown, "BTN_LEFT".to_string(), 10),
            (AdvancedEvent::KeyDown, "KEY_Q".to_string(), 20),
            (AdvancedEvent::KeyUp, "KEY_Q".to_string(), 30),
            (AdvancedEvent::MouseUp, "BTN_LEFT".to_string(), 40),
        ]
    );
}

#[test]
fn recording_skips_repeats_and_stops_on_escape() {
    assert!(record_event("KEY_A".to_string(), 2, 5).is_none());
    assert!(matches!(record_event("KEY_ESC".to_string(), 1, 5), Some(RecordMsg::Stop)));
    match record_event("KEY_ESC".to_string(), 0, 7) {
        Some(RecordMsg::Key { name, pressed, elapsed_ms }) => {
            assert_eq!(name, "KEY_ESC");
            assert!(!pressed);
            assert_eq!(elapsed_ms, 7);
        },
        _ => panic!("escape release is recorded"),
    }
    match record_event("KEY_A".to_string(), 1, 9) {
        Some(RecordMsg::Key { name, pressed, elapsed_ms }) => {
            assert_eq!(name, "KEY_A");
            assert!(pressed);
            assert_eq!(elapsed_ms, 9);
        },
        _ => panic!("press is recorded"),
    }
}

#[test]
fn finished_recording_becomes_macro_steps() {
    let mut p = Profile::new("p".to_string());
    p.macros.push(Macro::new("m".to_string()));
    let mut adv = Macro::new("adv".to_string());
    adv.mode = StepMode::Advanced;
    p.macros.push(adv);
    let mut e = editor_with(p);
    e.selected_macro = Some(0);
    e.recording = true;
    assert!(matches!(e.record_message(RecordMsg::Key { name: "KEY_A".to_string(), pressed: true, elapsed_ms: 0 }), RecordOutcome::Recording));
    assert!(matches!(e.record_message(RecordMsg::Key { name: "KEY_A".to_string(), pressed: false, elapsed_ms: 50 }), RecordOutcome::Recording));
    match e.record_message(RecordMsg::Stop) {
        RecordOutcome::Finished(save) => assert_eq!(save, Some(0)),
        _ => panic!("stop finishes"),
    }
    assert!(!e.recording);
    assert!(e.record_buf.is_empty());
    assert_eq!(e.profiles[0].macros[0].simple_steps.len(), 1);
    assert_eq!(e.profiles[0].macros[0].simple_steps[0].action, "KEY_A");

    e.selected_macro = Some(1);
    e.record_buf = vec![rk("KEY_B", true, 5)];
    assert_eq!(e.finish_recording(), Some(0));
    assert_eq!(e.profiles[0].macros[1].advanced_steps.len(), 1);
    assert_eq!(e.profiles[0].macros[1].advanced_steps[0].event, AdvancedEvent::KeyDown);

    // Without a selected macro the recording is dropped.
    e.selected_macro = None;
    e.record_buf = vec![rk("KEY_C", true, 5)];
    assert_eq!(e.finish_recording(), None);
    assert!(e.record_buf.is_empty());
}

// ── Key learning ──────────────────────────────────────────────────────────────

#[test]
fn learning_joins_held_modifiers_with_the_key() {
    let mods = vec![chars("KEY_LEFTALT"), chars("KEY_MACRO1")];
    let mut held: Vec<Vec<char>> = Vec::new();
    assert_eq!(learn_key_event(&mut held, &mods, &chars("KEY_MACRO1"), 1, false), None);
    assert_eq!(learn_key_event(&mut held, &mods, &chars("KEY_LEFTALT"), 1, true), None);
    assert_eq!(learn_key_event(&mut held, &mods, &chars("KEY_LEFTALT"), 1, true), None);
    assert_eq!(held, vec![chars("KEY_MACRO1"), chars("KEY_LEFTALT")]);
    // A press is ignored until learning accepts keys.
    assert_eq!(learn_key_event(&mut held, &mods, &chars("KEY_A"), 1, false), None);
    let learned = learn_key_event(&mut held, &mods, &chars("KEY_A"), 1, true);
    assert_eq!(learned, Some("KEY_MACRO1+KEY_LEFTALT+KEY_A".to_string()));
    assert_eq!(learn_key_event(&mut held, &mods, &chars("KEY_MACRO1"), 0, true), None);
    assert_eq!(held, vec![chars("KEY_LEFTALT")]);
    assert_eq!(learn_key_event(&mut held, &mods, &chars("KEY_B"), 1, true), Some("KEY_LEFTALT+KEY_B".to_string()));
    let mut none: Vec<Vec<char>> = Vec::new();
    assert_eq!(learn_key_event(&mut none, &vec![], &chars("KEY_Q"), 1, true), Some("KEY_Q".to_string()));

    let (key, held_names) = split_learned("KEY_MACRO1+KEY_LEFTALT+KEY_A");
    assert_eq!(key, "KEY_A");
    assert_eq!(held_names, vec![chars("KEY_MACRO1"), chars("KEY_LEFTALT")]);
    let (key, held_names) = split_learned("KEY_Q");
    assert_eq!(key, "KEY_Q");
    assert!(held_names.is_empty());
}

// ── Guards ────────────────────────────────────────────────────────────────────

fn guarded_profile() -> (Profile, u128, u128) {
    let mut p = Profile::new("p".to_string());
    let alt = ModifierKey::new("KEY_LEFTALT".to_string(), "Alt".to_string());
    let ctl = ModifierKey::new("KEY_LEFTCTRL".to_string(), "Ctrl".to_string());
    let (a, c) = (alt.id, ctl.id);
    p.modifiers.push(alt);
    p.modifiers.push(ctl);
    let mut x = KeyAssignment::new("KEY_A".to_string());
    x.modifiers = vec![a, c];
    x.source_device = Some("Mouse".to_string());
    p.assignments.push(x);
    (p, a, c)
}

#[test]
fn duplicate_assignments_compare_modifiers_in_any_order() {
    let (p, a, c) = guarded_profile();
    let prof = Some(&p);
    assert!(is_duplicate_assignment(prof, "KEY_A", &[c, a], Some("Mouse"), &TriggerMode::Any, usize::MAX));
    assert!(!is_duplicate_assignment(prof, "KEY_A", &[c, a], Some("Mouse"), &TriggerMode::Any, 0));
    assert!(!is_duplicate_assignment(prof, "KEY_A", &[a], Some("Mouse"), &TriggerMode::Any, usize::MAX));
    assert!(!is_duplicate_assignment(prof, "KEY_A", &[a, a, c], Some("Mouse"), &TriggerMode::Any, usize::MAX));
    assert!(!is_duplicate_assignment(prof, "KEY_A", &[c, a], None, &TriggerMode::Any, usize::MAX));
    assert!(!is_duplicate_assignment(prof, "KEY_A", &[c, a], Some("Mouse"), &TriggerMode::QuickPress, usize::MAX));
    assert!(!is_duplicate_assignment(None, "KEY_A", &[c, a], Some("Mouse"), &TriggerMode::Any, usize::MAX));
}

#[test]
fn guards_refuse_blocked_keys_first() {
    let (p, a, c) = guarded_profile();
    assert!(is_blocked(Some(&p), "KEY_ESC"));
    assert!(!is_blocked(Some(&p), "KEY_A"));
    assert!(!is_blocked(None, "KEY_ESC"));
    assert_eq!(
        assignment_guard(Some(&p), "BTN_LEFT", &[], None, &TriggerMode::Any, usize::MAX),
        Some("BTN_LEFT is in the blocked list and cannot be assigned.".to_string())
    );
    assert_eq!(
        assignment_guard(Some(&p), "KEY_A", &[a, c], Some("Mouse"), &TriggerMode::Any, usize::MAX),
        Some("KEY_A is already assigned with the same modifiers and trigger mode.".to_string())
    );
    assert_eq!(assignment_guard(Some(&p), "KEY_B", &[a, c], Some("Mouse"), &TriggerMode::Any, usize::MAX), None);
}

#[test]
fn learned_key_for_a_new_assignment_is_added_once() {
    let (p, a, _) = guarded_profile();
    let mut e = editor_with(p);
    e.learn_target = Some(LearnTarget::AssignmentSource(usize::MAX));
    e.adding_assignment = true;
    let save = e.learned("KEY_LEFTALT+KEY_Q".to_string(), "Keyboard".to_string());
    assert_eq!(save, Some(0));
    assert!(e.learn_target.is_none());
    assert!(!e.adding_assignment);
    let added = e.profiles[0].assignments.last().unwrap();
    assert_eq!(added.source_key, "KEY_Q");
    assert_eq!(added.modifiers, vec![a]);
    assert_eq!(added.source_device, Some("Keyboard".to_string()));
    assert_eq!(e.profiles[0].assignments.len(), 2);
    // The same key again is refused.
    e.learn_target = Some(LearnTarget::AssignmentSource(usize::MAX));
    assert_eq!(e.learned("KEY_LEFTALT+KEY_Q".to_string(), "Keyboard".to_string()), None);
    assert_eq!(
        e.warn_popup,
        Some("KEY_Q is already assigned with the same modifiers and trigger mode.".to_string())
    );
    assert_eq!(e.profiles[0].assignments.len(), 2);
}

#[test]
fn learned_keys_for_each_target() {
    let (p, a, c) = guarded_profile();
    let mut m = Macro::new("m".to_string());
    m.fire = FireMode::Single;
    let mut p = p;
    p.macros.push(m);
    let mut e = Editor::new(vec![p], true);
    e.scanner_dirty = false;
    e.selected = Some(0);

    e.learn_target = Some(LearnTarget::NewModifier);
    assert_eq!(e.handle_learned("KEY_CAPSLOCK".to_string(), "".to_string()), Some(0));
    let m = e.profiles[0].modifiers.last().unwrap();
    assert_eq!((m.key.as_str(), m.name.as_str(), m.source_device.clone()), ("KEY_CAPSLOCK", "KEY_CAPSLOCK", None));
    assert!(e.scanner_dirty);

    e.learn_target = Some(LearnTarget::NewBlockedKey);
    assert_eq!(e.handle_learned("KEY_F1".to_string(), "Kbd".to_string()), Some(0));
    e.learn_target = Some(LearnTarget::NewBlockedKey);
    e.handle_learned("KEY_F1".to_string(), "Kbd".to_string());
    assert_eq!(e.profiles[0].blocked_keys, vec!["KEY_ESC", "BTN_LEFT", "BTN_RIGHT", "KEY_F1"]);

    e.learn_target = Some(LearnTarget::AssignmentRemap(0));
    e.profiles[0].assignments[0].macro_id = Some(5);
    e.handle_learned("KEY_Z".to_string(), "Kbd".to_string());
    assert_eq!(e.profiles[0].assignments[0].remap_key, Some("KEY_Z".to_string()));
    assert_eq!(e.profiles[0].assignments[0].macro_id, None);

    e.learn_target = Some(LearnTarget::AssignmentSource(0));
    e.handle_learned("KEY_LEFTCTRL+KEY_G".to_string(), "Pad".to_string());
    let x = &e.profiles[0].assignments[0];
    assert_eq!(x.source_key, "KEY_G");
    assert_eq!(x.modifiers, vec![c]);
    assert_eq!(x.source_device, Some("Pad".to_string()));
    let _ = a;

    // A blocked source key is refused.
    e.learn_target = Some(LearnTarget::AssignmentSource(0));
    assert_eq!(e.handle_learned("KEY_F1".to_string(), "Pad".to_string()), None);
    assert_eq!(e.warn_popup, Some("KEY_F1 is in the blocked list and cannot be assigned.".to_string()));
    assert_eq!(e.profiles[0].assignments[0].source_key, "KEY_G");

    e.selected_macro = Some(0);
    e.new_step_hold = " 15 ".to_string();
    e.new_step_delay = "x".to_string();
    e.adding_step = true;
    e.learn_target = Some(LearnTarget::NewMacroStep);
    assert_eq!(e.handle_learned("KEY_H".to_string(), "Kbd".to_string()), Some(0));
    let s: &SimpleStep = e.profiles[0].macros[0].simple_steps.last().unwrap();
    assert_eq!((s.action.as_str(), s.hold_ms, s.delay_after_ms), ("KEY_H", 15, 60));
    assert!(!e.adding_step);
    assert_eq!(e.new_step_hold, "40");
    assert_eq!(e.new_step_delay, "60");

    // Nothing to learn for: nothing happens.
    assert!(e.learn_target.is_none());
    assert_eq!(e.handle_learned("KEY_J".to_string(), "Kbd".to_string()), None);
}

// ── Auto-detect, scanner and log ──────────────────────────────────────────────

#[test]
fn detect_results_load_and_stop_sessions() {
    let p = Profile::new("game".to_string());
    let id = p.id;
    let mut e = Editor::new(vec![Profile::new("other".to_string()), p], true);
    assert!(e.take_scanner_restart());
    assert!(!e.take_scanner_restart());
    assert_eq!(e.on_detect(Some(DetectEvent::Found(id)), None), DetectAction::Load(id));
    assert_eq!(e.on_detect(Some(DetectEvent::Found(id)), Some(id)), DetectAction::Keep);
    e.detected_loaded(id);
    assert_eq!(e.selected, Some(1));
    assert_eq!(e.auto_detected_uuid, Some(id));
    // A manually loaded profile is not stopped.
    assert_eq!(e.on_detect(Some(DetectEvent::Lost), Some(7)), DetectAction::Keep);
    assert_eq!(e.on_detect(Some(DetectEvent::Lost), Some(id)), DetectAction::Stop);
    assert_eq!(e.auto_detected_uuid, None);
    assert_eq!(e.on_detect(None, None), DetectAction::Keep);
}

#[test]
fn log_panel_keeps_the_last_lines() {
    let mut e = Editor::new(vec![], false);
    e.append_log(vec![]);
    assert!(e.log_entries.is_empty());
    e.append_log((0..450).map(|i| format!("a{i}")).collect());
    e.append_log((0..100).map(|i| format!("b{i}")).collect());
    assert_eq!(e.log_entries.len(), 500);
    assert_eq!(e.log_entries[0], "a50");
    assert_eq!(e.log_entries[499], "b99");
}

// ── Profile edits ─────────────────────────────────────────────────────────────

#[test]
fn deleting_a_modifier_unlinks_it_from_assignments() {
    let (mut p, a, c) = guarded_profile();
    delete_modifier(&mut p, 0);
    assert_eq!(p.modifiers.len(), 1);
    assert_eq!(p.modifiers[0].id, c);
    assert_eq!(p.assignments[0].modifiers, vec![c]);
    assert!(!p.assignments[0].modifiers.contains(&a));
}

#[test]
fn deleting_a_macro_unlinks_it_and_moves_the_selection() {
    let mut p = Profile::new("p".to_string());
    let m0 = Macro::new("m0".to_string());
    let m1 = Macro::new("m1".to_string());
    let id1 = m1.id;
    p.macros.push(m0);
    p.macros.push(m1);
    let mut x = KeyAssignment::new("KEY_A".to_string());
    x.macro_id = Some(id1);
    p.assignments.push(x);
    delete_macro(&mut p, 1);
    assert_eq!(p.macros.len(), 1);
    assert_eq!(p.assignments[0].macro_id, None);
    assert_eq!(selection_after_delete(Some(1), 1), None);
    assert_eq!(selection_after_delete(Some(2), 1), Some(1));
    assert_eq!(selection_after_delete(Some(0), 1), Some(0));
    assert_eq!(selection_after_delete(None, 1), None);
}

#[test]
fn assignment_targets() {
    let mut a = KeyAssignment::new("KEY_A".to_string());
    a.remap_key = Some("KEY_B".to_string());
    a.trigger_mode = TriggerMode::QuickPress;
    set_target_macro(&mut a, Some(9));
    assert_eq!((a.macro_id, a.remap_key.clone(), a.trigger_mode), (Some(9), None, TriggerMode::QuickPress));
    set_target_macro(&mut a, None);
    assert_eq!((a.macro_id, a.trigger_mode), (None, TriggerMode::Any));
    a.remap_key = Some("KEY_B".to_string());
    a.trigger_mode = TriggerMode::ShortHold;
    clear_assignment_target(&mut a);
    assert_eq!((a.macro_id, a.remap_key.clone(), a.trigger_mode), (None, None, TriggerMode::Any));
}

#[test]
fn loop_event_targets_and_defaults() {
    let mut p = Profile::new("p".to_string());
    let mut looping = Macro::new("loop".to_string());
    looping.fire = FireMode::Loop;
    let single = Macro::new("single".to_string());
    let mut with_events = Macro::new("busy".to_string());
    with_events.events.push(new_loop_event(None));
    p.macros.push(looping);
    p.macros.push(single);
    p.macros.push(with_events);
    assert_eq!(event_targets(&p, 0), vec![1]);
    assert_eq!(event_targets(&p, 1), vec![]);
    let ev = new_loop_event(Some(42));
    assert_eq!((ev.macro_id, ev.order, ev.min_loops, ev.delay_ms), (42, 1, 0, 100));
    assert_eq!(new_loop_event(None).macro_id, 0);
}

#[test]
fn steps_move_up() {
    let mut v = vec![1, 2, 3];
    move_up(&mut v, 2);
    assert_eq!(v, vec![1, 3, 2]);
    move_up(&mut v, 1);
    assert_eq!(v, vec![3, 1, 2]);
}

#[test]
fn default_blocked_keys_restored_once() {
    let mut p = Profile::new("p".to_string());
    p.blocked_keys = vec!["BTN_LEFT".to_string(), "KEY_X".to_string()];
    restore_default_blocked(&mut p);
    assert_eq!(p.blocked_keys, vec!["BTN_LEFT", "KEY_X", "KEY_ESC", "BTN_RIGHT"]);
    restore_default_blocked(&mut p);
    assert_eq!(p.blocked_keys.len(), 4);
}

#[test]
fn fragments_and_game_links() {
    let mut p = Profile::new("p".to_string());
    p.auto_detect.push(gameremap::config::AutoDetectTarget::new());
    assert!(add_fragment(&mut p, 0, "  darktide "));
    assert!(!add_fragment(&mut p, 0, "   "));
    assert!(!add_fragment(&mut p, 1, "x"));
    assert_eq!(p.auto_detect[0].fragments, vec!["darktide"]);
    assert!(link_from_draft(GameLink::default()).is_none());
    let mut g = GameLink::default();
    g.steam_id = Some(1361210);
    assert_eq!(link_from_draft(g).unwrap().steam_id, Some(1361210));
    assert_eq!(process_from_text("  Darktide.exe "), Some("Darktide.exe".to_string()));
    assert_eq!(process_from_text("  "), None);
}

#[test]
fn profiles_are_created_in_name_order() {
    let mut e = Editor::new(vec![Profile::new("beta".to_string())], false);
    assert_eq!(e.create_profile("   "), None);
    assert_eq!(e.profiles.len(), 1);
    let id = e.create_profile(" alpha ").unwrap();
    let names: Vec<&str> = e.profiles.iter().map(|p| p.name.as_str()).collect();
    assert_eq!(names, vec!["alpha", "beta"]);
    assert_eq!(e.profiles[0].id, id);
    assert_eq!(e.selected, Some(1));
    e.selected = Some(0);
    e.selected_macro = Some(3);
    let removed = e.delete_selected_profile().unwrap();
    assert_eq!(removed.name, "alpha");
    assert_eq!(e.selected, None);
    assert_eq!(e.selected_macro, None);
    assert_eq!(e.profiles.len(), 1);
    assert!(e.delete_selected_profile().is_none());
}

// ── Display rules ─────────────────────────────────────────────────────────────

#[test]
fn assignment_source_and_target_labels() {
    let mut p = Profile::new("p".to_string());
    let alt = ModifierKey::new("KEY_LEFTALT".to_string(), "Alt".to_string());
    let ctrl = ModifierKey::new("KEY_LEFTCTRL".to_string(), "Ctrl".to_string());
    let (alt_id, ctrl_id) = (alt.id, ctrl.id);
    p.modifiers = vec![alt, ctrl];
    let mut a = KeyAssignment::new(String::new());
    assert_eq!(source_label(&p.modifiers, &a), "— not set —");
    a.source_key = "KEY_MACRO1".to_string();
    assert_eq!(source_label(&p.modifiers, &a), "KEY_MACRO1");
    a.modifiers = vec![ctrl_id, alt_id];
    assert_eq!(source_label(&p.modifiers, &a), "Alt + Ctrl + KEY_MACRO1");
    a.modifiers = vec![12345];
    assert_eq!(source_label(&p.modifiers, &a), " + KEY_MACRO1");

    assert_eq!(remap_label("KEY_LEFTCTRL+KEY_C"), "KEY_LEFTCTRL + KEY_C");
    assert_eq!(remap_label("KEY_A"), "KEY_A");

    let single = Macro::new("Burst".to_string());
    let mut looping = Macro::new("Spin".to_string());
    looping.fire = FireMode::Loop;
    let (sid, lid) = (single.id, looping.id);
    p.macros = vec![single, looping];
    assert_eq!(macro_target_name(&p.macros, lid), "Spin");
    assert_eq!(macro_target_name(&p.macros, 7), "(missing)");
    a.macro_id = Some(sid);
    assert!(shows_trigger(&p.macros, &a));
    a.macro_id = Some(lid);
    assert!(!shows_trigger(&p.macros, &a));
    a.macro_id = None;
    assert!(!shows_trigger(&p.macros, &a));
}

#[test]
fn top_bar_and_game_link_texts() {
    assert_eq!(auto_switch_label(false, Some("Darktide")), "Auto-detect: OFF");
    assert_eq!(auto_switch_label(true, None), "Auto-detect: ON");
    assert_eq!(auto_switch_label(true, Some("Darktide")), "Running [Darktide]");
    assert_eq!(game_link_summary(None), "No game linked");
    let g = GameLink { display_name: "Darktide".to_string(), steam_id: None, process: None };
    assert_eq!(game_link_summary(Some(&g)), "🎮 Darktide");
    assert_eq!(steam_id_from_text(" 1361210 "), Some(1361210));
    assert_eq!(steam_id_from_text("+7"), Some(7));
    assert_eq!(steam_id_from_text("4294967296"), None);
    assert_eq!(steam_id_from_text("12a"), None);
    assert_eq!(steam_id_from_text("   "), None);
}

#[test]
fn step_mode_switch_drops_the_other_steps() {
    let mut m = Macro::new("m".to_string());
    m.simple_steps.push(SimpleStep { action: "KEY_A".to_string(), hold_ms: 10, delay_after_ms: 5 });
    set_step_mode(&mut m, StepMode::Simple);
    assert_eq!(m.simple_steps.len(), 1);
    set_step_mode(&mut m, StepMode::Advanced);
    assert!(m.mode == StepMode::Advanced);
    assert!(m.simple_steps.is_empty());
    m.advanced_steps.push(gameremap::config::AdvancedStep { event: AdvancedEvent::KeyDown, key: "KEY_A".to_string(), time_ms: 0 });
    set_step_mode(&mut m, StepMode::Simple);
    assert!(m.mode == StepMode::Simple);
    assert!(m.advanced_steps.is_empty());
}

#[test]
fn editor_selection_macros_and_auto_switch() {
    let mut e = Editor::new(vec![Profile::new("a".to_string()), Profile::new("b".to_string())], false);
    assert_eq!(e.new_macro(), None);
    e.select_profile(1);
    assert_eq!(e.selected, Some(1));
    assert_eq!(e.new_macro(), Some(1));
    assert_eq!(e.profiles[1].macros.len(), 1);
    assert_eq!(e.profiles[1].macros[0].name, "New Macro");
    assert_eq!(e.selected_macro, Some(0));
    e.select_profile(1);
    assert_eq!(e.selected_macro, Some(0));
    e.select_profile(0);
    assert_eq!(e.selected_macro, None);

    e.scanner_dirty = false;
    assert!(!e.toggle_auto_switch());
    assert!(e.auto_switch && e.scanner_dirty);
    e.scanner_dirty = false;
    assert!(e.toggle_auto_switch());
    assert!(!e.auto_switch && !e.scanner_dirty);

    e.auto_detected_uuid = Some(e.profiles[0].id);
    let id0 = e.profiles[0].id;
    assert_eq!(e.run_selected(), Some((0, id0)));
    assert_eq!(e.auto_detected_uuid, None);
    e.selected = None;
    assert_eq!(e.run_selected(), None);
}
