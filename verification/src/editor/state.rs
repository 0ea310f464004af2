//! The editor's state, and what a learned key, a finished recording, an
//! auto-detect result or a batch of log lines does to it. Saving a profile
//! is reported to the caller, which writes the file.
use vstd::prelude::*;
use crate::config::{strings_view, FireMode, KeyAssignment, Macro, ModifierKey, Profile, SimpleStep, TriggerMode};
use crate::editor::{
    assignment_guard, guard_spec, learned_parts, modifier_ids, opt_view, same_assignment, split_learned, LearnTarget,
};
use crate::editor::recording::{
    advanced_steps_match, buf_to_advanced_steps, buf_to_simple_steps, chars_view, contains_chars_seq, simple_steps_match,
    RecordMsg, RecordedKey,
};
use crate::config::StepMode;
use crate::constants::ENGINE_LOG_CAPACITY;
use crate::engine::detect::{find_profile, profile_index, DetectEvent};
use crate::text::{chars_eq, chars_of, parse_unsigned, parse_unsigned_spec, trim_chars, trim_spec};

verus! {

/// The profile editor's state, apart from what only its windows use.
pub struct Editor {
    pub profiles: Vec<Profile>,
    pub selected: Option<usize>,
    pub learn_target: Option<LearnTarget>,
    pub adding_modifier: bool,
    pub selected_macro: Option<usize>,
    pub adding_step: bool,
    pub new_step_action: String,
    pub new_step_hold: String,
    pub new_step_delay: String,
    pub adding_assignment: bool,
    pub warn_popup: Option<String>,
    /// Profiles switch automatically with the running game.
    pub auto_switch: bool,
    /// The auto-detect scanner must be restarted with the current profiles.
    pub scanner_dirty: bool,
    pub recording: bool,
    pub record_buf: Vec<RecordedKey>,
    /// The profile that auto-detect loaded, while its session runs.
    pub auto_detected_uuid: Option<u128>,
    pub log_enabled: bool,
    pub log_entries: Vec<String>,
}

impl Editor {
    /// The index of the selected profile, if it exists.
    pub open spec fn save_target(self) -> Option<usize> {
        match self.selected {
            Some(i) => if i < self.profiles@.len() {
                Some(i)
            } else {
                None
            },
            None => None,
        }
    }

    /// The selected profile, if it exists.
    pub open spec fn current(self) -> Option<Profile> {
        match self.save_target() {
            Some(i) => Some(self.profiles@[i as int]),
            None => None,
        }
    }

    /// The selected macro exists in the selected profile whenever both are
    /// selected.
    pub open spec fn macro_slot_valid(self) -> bool {
        match (self.selected, self.selected_macro) {
            (Some(pi), Some(mi)) => pi < self.profiles@.len() && mi < self.profiles@[pi as int].macros@.len(),
            _ => true,
        }
    }

    /// The editor as it starts: no profile selected, nothing in progress, the
    /// step drafts at 40 ms hold and 60 ms delay, and the scanner due to
    /// start when profiles switch automatically.
    pub fn new(profiles: Vec<Profile>, auto_switch: bool) -> (e: Self)
        ensures
            e.profiles == profiles,
            e.selected is None,
            e.learn_target is None,
            !e.adding_modifier,
            e.selected_macro is None,
            !e.adding_step,
            e.new_step_action@.len() == 0,
            e.new_step_hold@ == "40"@,
            e.new_step_delay@ == "60"@,
            !e.adding_assignment,
            e.warn_popup is None,
            e.auto_switch == auto_switch,
            e.scanner_dirty == auto_switch,
            !e.recording,
            e.record_buf@.len() == 0,
            e.auto_detected_uuid is None,
            !e.log_enabled,
            e.log_entries@.len() == 0,
    {
        Editor {
            profiles,
            selected: None,
            learn_target: None,
            adding_modifier: false,
            selected_macro: None,
            adding_step: false,
            new_step_action: String::new(),
            new_step_hold: String::from_str("40"),
            new_step_delay: String::from_str("60"),
            adding_assignment: false,
            warn_popup: None,
            auto_switch,
            scanner_dirty: auto_switch,
            recording: false,
            record_buf: Vec::new(),
            auto_detected_uuid: None,
            log_enabled: false,
            log_entries: Vec::new(),
        }
    }

    fn save_index(&self) -> (r: Option<usize>)
        ensures
            r == self.save_target(),
    {
        match self.selected {
            Some(i) => if i < self.profiles.len() {
                Some(i)
            } else {
                None
            },
            None => None,
        }
    }

    /// Saving the current profile: the caller writes the profile whose index
    /// comes back; with automatic switching the scanner must restart.
    pub fn save_current(&mut self) -> (r: Option<usize>)
        ensures
            r == old(self).save_target(),
            *final(self) == (Editor { scanner_dirty: old(self).scanner_dirty || old(self).auto_switch, ..*old(self) }),
    {
        if self.auto_switch {
            self.scanner_dirty = true;
        }
        self.save_index()
    }
}

/// The step timing typed in the editor: a number, or the default when it
/// does not parse.
pub open spec fn draft_ms(text: Seq<char>, default: u32) -> u32 {
    match parse_unsigned_spec(trim_spec(text), 10, u32::MAX as nat) {
        Some(v) => v as u32,
        None => default,
    }
}

fn parse_draft(text: &String, default: u32) -> (r: u32)
    ensures
        r == draft_ms(text@, default),
{
    let cs = chars_of(text.as_str());
    let t = trim_chars(cs.as_slice());
    match parse_unsigned(t.as_slice(), 10, u32::MAX) {
        Some(v) => v,
        None => default,
    }
}

/// `q` is `p` with other modifiers.
pub open spec fn modifiers_changed(p: Profile, q: Profile) -> bool {
    q == (Profile { modifiers: q.modifiers, ..p })
}

/// `q` is `p` with other macros.
pub open spec fn macros_changed(p: Profile, q: Profile) -> bool {
    q == (Profile { macros: q.macros, ..p })
}

/// `q` is `p` with other assignments.
pub open spec fn assignments_changed(p: Profile, q: Profile) -> bool {
    q == (Profile { assignments: q.assignments, ..p })
}

/// `q` is `p` with another blocked list.
pub open spec fn blocked_changed(p: Profile, q: Profile) -> bool {
    q == (Profile { blocked_keys: q.blocked_keys, ..p })
}

/// The profile list with profile `i` replaced.
pub open spec fn replaced(old: Seq<Profile>, new: Seq<Profile>, i: int) -> bool {
    new.len() == old.len() && 0 <= i < old.len() && forall|j: int| 0 <= j < old.len() && j != i ==> new[j] == old[j]
}

/// A new modifier learned from `key` on `device` (an empty device name
/// means any device).
pub open spec fn learned_modifier(m: ModifierKey, key: Seq<char>, device: Seq<char>) -> bool {
    &&& m.key@ == key
    &&& m.name@ == key
    &&& opt_view(m.source_device) == if device.len() == 0 {
        None
    } else {
        Some(device)
    }
}

/// What handling a learned key (`key` from `device`) does, by what it was
/// learned for. The learning target is always consumed; a save is reported
/// as the index of the profile to write.
pub open spec fn handled_learned(old: Editor, new: Editor, key: Seq<char>, device: Seq<char>, r: Option<usize>) -> bool {
    let dirty = old.scanner_dirty || old.auto_switch;
    match old.learn_target {
        None => new == old && r is None,
        Some(LearnTarget::NewModifier) => {
            &&& new == (Editor {
                profiles: new.profiles,
                learn_target: None,
                adding_modifier: false,
                scanner_dirty: dirty,
                ..old
            })
            &&& r == old.save_target()
            &&& match old.save_target() {
                Some(i) => {
                    let p = old.profiles@[i as int];
                    let q = new.profiles@[i as int];
                    &&& replaced(old.profiles@, new.profiles@, i as int)
                    &&& modifiers_changed(p, q)
                    &&& q.modifiers@.len() == p.modifiers@.len() + 1
                    &&& q.modifiers@.drop_last() == p.modifiers@
                    &&& learned_modifier(q.modifiers@.last(), key, device)
                },
                None => new.profiles == old.profiles,
            }
        },
        Some(LearnTarget::NewMacroStep) => match (old.selected, old.selected_macro) {
            (Some(pi), Some(mi)) => {
                let p = old.profiles@[pi as int];
                let q = new.profiles@[pi as int];
                let om = p.macros@[mi as int];
                let nm = q.macros@[mi as int];
                &&& new == (Editor {
                    profiles: new.profiles,
                    learn_target: None,
                    adding_step: false,
                    new_step_action: new.new_step_action,
                    new_step_hold: new.new_step_hold,
                    new_step_delay: new.new_step_delay,
                    scanner_dirty: dirty,
                    ..old
                })
                &&& new.new_step_action@.len() == 0
                &&& new.new_step_hold@ == "40"@
                &&& new.new_step_delay@ == "60"@
                &&& r == Some(pi)
                &&& replaced(old.profiles@, new.profiles@, pi as int)
                &&& macros_changed(p, q)
                &&& q.macros@.len() == p.macros@.len()
                &&& forall|j: int| 0 <= j < p.macros@.len() && j != mi ==> q.macros@[j] == p.macros@[j]
                &&& nm == (Macro { simple_steps: nm.simple_steps, ..om })
                &&& nm.simple_steps@.len() == om.simple_steps@.len() + 1
                &&& nm.simple_steps@.drop_last() == om.simple_steps@
                &&& nm.simple_steps@.last().action@ == key
                &&& nm.simple_steps@.last().hold_ms == draft_ms(old.new_step_hold@, 40)
                &&& nm.simple_steps@.last().delay_after_ms == draft_ms(old.new_step_delay@, 60)
            },
            _ => new == (Editor { learn_target: None, ..old }) && r is None,
        },
        Some(LearnTarget::NewBlockedKey) => {
            &&& new == (Editor { profiles: new.profiles, learn_target: None, scanner_dirty: dirty, ..old })
            &&& r == old.save_target()
            &&& match old.save_target() {
                Some(i) => {
                    let p = old.profiles@[i as int];
                    let q = new.profiles@[i as int];
                    &&& replaced(old.profiles@, new.profiles@, i as int)
                    &&& blocked_changed(p, q)
                    &&& strings_view(q.blocked_keys@) == if crate::editor::blocked_in(p, key) {
                        strings_view(p.blocked_keys@)
                    } else {
                        strings_view(p.blocked_keys@).push(key)
                    }
                },
                None => new.profiles == old.profiles,
            }
        },
        Some(LearnTarget::AssignmentRemap(idx)) => {
            &&& new == (Editor { profiles: new.profiles, learn_target: None, scanner_dirty: dirty, ..old })
            &&& r == old.save_target()
            &&& match old.save_target() {
                Some(i) => if idx < old.profiles@[i as int].assignments@.len() {
                    let p = old.profiles@[i as int];
                    let q = new.profiles@[i as int];
                    let oa = p.assignments@[idx as int];
                    let na = q.assignments@[idx as int];
                    &&& replaced(old.profiles@, new.profiles@, i as int)
                    &&& assignments_changed(p, q)
                    &&& q.assignments@.len() == p.assignments@.len()
                    &&& forall|j: int| 0 <= j < p.assignments@.len() && j != idx ==> q.assignments@[j] == p.assignments@[j]
                    &&& na == (KeyAssignment { remap_key: na.remap_key, macro_id: None, ..oa })
                    &&& opt_view(na.remap_key) == Some(key)
                } else {
                    new.profiles == old.profiles
                },
                None => new.profiles == old.profiles,
            }
        },
        Some(LearnTarget::AssignmentSource(idx)) => {
            let (actual, held) = learned_parts(key);
            let cur = old.current();
            let mods = match cur {
                Some(p) => modifier_ids(p.modifiers@, held),
                None => seq![],
            };
            let mode = match cur {
                Some(p) => if idx < p.assignments@.len() {
                    p.assignments@[idx as int].trigger_mode
                } else {
                    TriggerMode::Any
                },
                None => TriggerMode::Any,
            };
            match guard_spec(cur, actual, mods, Some(device), mode, idx) {
                Some(msg) => {
                    &&& new == (Editor { learn_target: None, warn_popup: new.warn_popup, ..old })
                    &&& opt_view(new.warn_popup) == Some(msg)
                    &&& r is None
                },
                None => {
                    &&& new == (Editor { profiles: new.profiles, learn_target: None, scanner_dirty: dirty, ..old })
                    &&& r == old.save_target()
                    &&& match old.save_target() {
                        Some(i) => if idx < old.profiles@[i as int].assignments@.len() {
                            let p = old.profiles@[i as int];
                            let q = new.profiles@[i as int];
                            let oa = p.assignments@[idx as int];
                            let na = q.assignments@[idx as int];
                            &&& replaced(old.profiles@, new.profiles@, i as int)
                            &&& assignments_changed(p, q)
                            &&& q.assignments@.len() == p.assignments@.len()
                            &&& forall|j: int|
                                0 <= j < p.assignments@.len() && j != idx ==> q.assignments@[j] == p.assignments@[j]
                            &&& na == (KeyAssignment {
                                source_key: na.source_key,
                                source_device: na.source_device,
                                modifiers: na.modifiers,
                                ..oa
                            })
                            &&& na.source_key@ == actual
                            &&& opt_view(na.source_device) == Some(device)
                            &&& na.modifiers@ == mods
                        } else {
                            new.profiles == old.profiles
                        },
                        None => new.profiles == old.profiles,
                    }
                },
            }
        },
    }
}

impl Editor {
    fn profile_ref(&self) -> (r: Option<&Profile>)
        ensures
            match r {
                Some(p) => Some(*p),
                None => None,
            } == self.current(),
    {
        match self.save_index() {
            Some(i) => Some(&self.profiles[i]),
            None => None,
        }
    }

    /// The identifiers of the selected profile's modifiers whose key is held.
    fn current_modifier_ids(&self, held: &Vec<Vec<char>>) -> (r: Vec<u128>)
        ensures
            r@ == match self.current() {
                Some(p) => modifier_ids(p.modifiers@, chars_view(held@)),
                None => seq![],
            },
    {
        let mut ids: Vec<u128> = Vec::new();
        let i = match self.save_index() {
            None => {
                return ids;
            },
            Some(i) => i,
        };
        let p = &self.profiles[i];
        let ghost hv = chars_view(held@);
        let mut k: usize = 0;
        while k < p.modifiers.len()
            invariant
                k <= p.modifiers@.len(),
                hv == chars_view(held@),
                ids@ == modifier_ids(p.modifiers@.take(k as int), hv),
            decreases p.modifiers@.len() - k,
        {
            proof {
                let t = p.modifiers@.take(k + 1);
                assert(t.drop_last() =~= p.modifiers@.take(k as int));
                assert(t.last() == p.modifiers@[k as int]);
            }
            let key = chars_of(p.modifiers[k].key.as_str());
            if contains_chars_seq(held, key.as_slice()) {
                ids.push(p.modifiers[k].id);
            }
            k = k + 1;
        }
        proof {
            assert(p.modifiers@.take(p.modifiers@.len() as int) =~= p.modifiers@);
        }
        ids
    }

    fn learn_modifier(&mut self, key: String, device: String) -> (r: Option<usize>)
        requires
            old(self).learn_target == Some(LearnTarget::NewModifier),
        ensures
            handled_learned(*old(self), *final(self), key@, device@, r),
    {
        let k2 = key.clone();
        let mut m = ModifierKey::new(k2, key);
        let dev = chars_of(device.as_str());
        m.source_device = if dev.len() == 0 {
            None
        } else {
            Some(device)
        };
        assert(learned_modifier(m, key@, device@));
        match self.save_index() {
            Some(i) => {
                let ghost before = self.profiles@;
                let mut p = self.profiles.remove(i);
                let ghost p0 = p;
                p.modifiers.push(m);
                assert(p.modifiers@.drop_last() =~= p0.modifiers@);
                self.profiles.insert(i, p);
                proof {
                    assert forall|j: int| 0 <= j < before.len() && j != i implies self.profiles@[j] == before[j] by {
                        if j < i {
                        } else {
                        }
                    }
                }
            },
            None => {},
        }
        self.adding_modifier = false;
        self.learn_target = None;
        self.save_current()
    }

    fn learn_macro_step(&mut self, key: String, device: String) -> (r: Option<usize>)
        requires
            old(self).learn_target == Some(LearnTarget::NewMacroStep),
            old(self).macro_slot_valid(),
        ensures
            handled_learned(*old(self), *final(self), key@, device@, r),
    {
        self.learn_target = None;
        match (self.selected, self.selected_macro) {
            (Some(pi), Some(mi)) => {
                let hold = parse_draft(&self.new_step_hold, 40);
                let delay = parse_draft(&self.new_step_delay, 60);
                let step = SimpleStep { action: key, hold_ms: hold, delay_after_ms: delay };
                let ghost before = self.profiles@;
                let mut p = self.profiles.remove(pi);
                let ghost macros_before = p.macros@;
                let mut m = p.macros.remove(mi);
                let ghost m0 = m;
                m.simple_steps.push(step);
                assert(m.simple_steps@.drop_last() =~= m0.simple_steps@);
                p.macros.insert(mi, m);
                self.profiles.insert(pi, p);
                proof {
                    assert forall|j: int| 0 <= j < before.len() && j != pi implies self.profiles@[j] == before[j] by {
                        if j < pi {
                        } else {
                        }
                    }
                    assert forall|j: int| 0 <= j < macros_before.len() && j != mi implies self.profiles@[pi as int].macros@[j]
                        == macros_before[j] by {
                        if j < mi {
                        } else {
                        }
                    }
                }
                self.adding_step = false;
                self.new_step_action = String::new();
                self.new_step_hold = String::from_str("40");
                self.new_step_delay = String::from_str("60");
                self.save_current()
            },
            _ => None,
        }
    
    }

    fn learn_blocked(&mut self, key: String, device: String) -> (r: Option<usize>)
        requires
            old(self).learn_target == Some(LearnTarget::NewBlockedKey),
        ensures
            handled_learned(*old(self), *final(self), key@, device@, r),
    {
        self.learn_target = None;
        let blocked = crate::editor::is_blocked(self.profile_ref(), key.as_str());
        match self.save_index() {
            Some(i) => {
                if !blocked {
                    let ghost before = self.profiles@;
                    let mut p = self.profiles.remove(i);
                    let ghost bk = strings_view(p.blocked_keys@);
                    p.blocked_keys.push(key);
                    proof {
                        assert(strings_view(p.blocked_keys@) =~= bk.push(key@));
                    }
                    self.profiles.insert(i, p);
                    proof {
                        assert forall|j: int| 0 <= j < before.len() && j != i implies self.profiles@[j] == before[j] by {
                            if j < i {
                            } else {
                            }
                        }
                    }
                }
            },
            None => {},
        }
        self.save_current()
    
    }

    fn learn_remap(&mut self, key: String, device: String, idx: usize) -> (r: Option<usize>)
        requires
            old(self).learn_target == Some(LearnTarget::AssignmentRemap(idx)),
        ensures
            handled_learned(*old(self), *final(self), key@, device@, r),
    {
        self.learn_target = None;
        match self.save_index() {
            Some(i) => {
                if idx < self.profiles[i].assignments.len() {
                    let ghost before = self.profiles@;
                    let mut p = self.profiles.remove(i);
                    let ghost as_before = p.assignments@;
                    let mut a = p.assignments.remove(idx);
                    a.remap_key = Some(key);
                    a.macro_id = None;
                    p.assignments.insert(idx, a);
                    self.profiles.insert(i, p);
                    proof {
                        assert forall|j: int| 0 <= j < before.len() && j != i implies self.profiles@[j] == before[j] by {
                            if j < i {
                            } else {
                            }
                        }
                        assert forall|j: int| 0 <= j < as_before.len() && j != idx implies self.profiles@[i as int].assignments@[j]
                            == as_before[j] by {
                            if j < idx {
                            } else {
                            }
                        }
                    }
                }
            },
            None => {},
        }
        self.save_current()
    
    }

    fn learn_source(&mut self, key: String, device: String, idx: usize) -> (r: Option<usize>)
        requires
            old(self).learn_target == Some(LearnTarget::AssignmentSource(idx)),
        ensures
            handled_learned(*old(self), *final(self), key@, device@, r),
    {
        self.learn_target = None;
        let (actual, held) = split_learned(key.as_str());
        let mods = self.current_modifier_ids(&held);
        let mode = match self.save_index() {
            Some(i) => if idx < self.profiles[i].assignments.len() {
                self.profiles[i].assignments[idx].trigger_mode
            } else {
                TriggerMode::Any
            },
            None => TriggerMode::Any,
        };
        let guard = assignment_guard(
            self.profile_ref(),
            actual.as_str(),
            mods.as_slice(),
            Some(device.as_str()),
            &mode,
            idx,
        );
        match guard {
            Some(msg) => {
                self.warn_popup = Some(msg);
                None
            },
            None => {
                match self.save_index() {
                    Some(i) => {
                        if idx < self.profiles[i].assignments.len() {
                            let ghost before = self.profiles@;
                            let mut p = self.profiles.remove(i);
                            let ghost as_before = p.assignments@;
                            let mut a = p.assignments.remove(idx);
                            a.source_key = actual;
                            a.source_device = Some(device);
                            a.modifiers = mods;
                            p.assignments.insert(idx, a);
                            self.profiles.insert(i, p);
                            proof {
                                assert forall|j: int| 0 <= j < before.len() && j != i implies self.profiles@[j]
                                    == before[j] by {
                                    if j < i {
                                    } else {
                                    }
                                }
                                assert forall|j: int|
                                    0 <= j < as_before.len() && j != idx implies self.profiles@[i as int].assignments@[j]
                                    == as_before[j] by {
                                    if j < idx {
                                    } else {
                                    }
                                }
                            }
                        }
                    },
                    None => {},
                }
                self.save_current()
            },
        }
    
    }

    /// Handles a learned key (`key` pressed on `device`) according to what
    /// it was learned for; returns the index of the profile to save.
    pub fn handle_learned(&mut self, key: String, device: String) -> (r: Option<usize>)
        requires
            old(self).macro_slot_valid(),
        ensures
            handled_learned(*old(self), *final(self), key@, device@, r),
    {
        match self.learn_target {
            None => None,
            Some(LearnTarget::NewModifier) => self.learn_modifier(key, device),
            Some(LearnTarget::NewMacroStep) => self.learn_macro_step(key, device),
            Some(LearnTarget::NewBlockedKey) => self.learn_blocked(key, device),
            Some(LearnTarget::AssignmentRemap(idx)) => self.learn_remap(key, device, idx),
            Some(LearnTarget::AssignmentSource(idx)) => self.learn_source(key, device, idx),
        }
    }
}

/// What handling the key learned for a new assignment does: the key and
/// its held modifiers become a new assignment of the selected profile,
/// unless the guards refuse it (blocked key or duplicate, with trigger mode
/// `Any`), which shows the refusal instead. The assignment dialog closes
/// either way.
pub open spec fn added_learned(old: Editor, new: Editor, key: Seq<char>, device: Seq<char>, r: Option<usize>) -> bool {
    let (actual, held) = learned_parts(key);
    let cur = old.current();
    let mods = match cur {
        Some(p) => modifier_ids(p.modifiers@, held),
        None => seq![],
    };
    match guard_spec(cur, actual, mods, Some(device), TriggerMode::Any, usize::MAX) {
        Some(msg) => {
            &&& new == (Editor {
                learn_target: None,
                warn_popup: new.warn_popup,
                adding_assignment: false,
                ..old
            })
            &&& opt_view(new.warn_popup) == Some(msg)
            &&& r is None
        },
        None => {
            &&& new == (Editor { profiles: new.profiles, learn_target: None, adding_assignment: false, ..old })
            &&& r == old.save_target()
            &&& match old.save_target() {
                Some(i) => {
                    let p = old.profiles@[i as int];
                    let q = new.profiles@[i as int];
                    let a = q.assignments@.last();
                    &&& replaced(old.profiles@, new.profiles@, i as int)
                    &&& assignments_changed(p, q)
                    &&& q.assignments@.len() == p.assignments@.len() + 1
                    &&& q.assignments@.drop_last() == p.assignments@
                    &&& a.source_key@ == actual
                    &&& opt_view(a.source_device) == Some(device)
                    &&& a.modifiers@ == mods
                    &&& a.remap_key is None
                    &&& a.macro_id is None
                    &&& a.trigger_mode == TriggerMode::Any
                },
                None => new.profiles == old.profiles,
            }
        },
    }
}

/// What finishing a recording does: recording stops, the buffer empties,
/// and when a macro is selected the recorded keys are appended to its steps
/// in the macro's step mode.
pub open spec fn finished_recording(old: Editor, new: Editor, r: Option<usize>) -> bool {
    &&& new.record_buf@.len() == 0
    &&& match (old.selected, old.selected_macro) {
        (Some(pi), Some(mi)) => {
            let p = old.profiles@[pi as int];
            let q = new.profiles@[pi as int];
            let om = p.macros@[mi as int];
            let nm = q.macros@[mi as int];
            let n_simple = om.simple_steps@.len() as int;
            let n_adv = om.advanced_steps@.len() as int;
            &&& new == (Editor { profiles: new.profiles, recording: false, record_buf: new.record_buf, ..old })
            &&& r == Some(pi)
            &&& replaced(old.profiles@, new.profiles@, pi as int)
            &&& macros_changed(p, q)
            &&& q.macros@.len() == p.macros@.len()
            &&& forall|j: int| 0 <= j < p.macros@.len() && j != mi ==> q.macros@[j] == p.macros@[j]
            &&& match om.mode {
                StepMode::Simple => {
                    &&& nm == (Macro { simple_steps: nm.simple_steps, ..om })
                    &&& nm.simple_steps@.len() >= n_simple
                    &&& nm.simple_steps@.take(n_simple) == om.simple_steps@
                    &&& simple_steps_match(nm.simple_steps@.skip(n_simple), old.record_buf@)
                },
                StepMode::Advanced => {
                    &&& nm == (Macro { advanced_steps: nm.advanced_steps, ..om })
                    &&& nm.advanced_steps@.len() >= n_adv
                    &&& nm.advanced_steps@.take(n_adv) == om.advanced_steps@
                    &&& advanced_steps_match(nm.advanced_steps@.skip(n_adv), old.record_buf@)
                },
            }
        },
        _ => new == (Editor { recording: false, record_buf: new.record_buf, ..old }) && r is None,
    }
}

/// A key added to the recording.
pub open spec fn recorded_key(old: Editor, new: Editor, name: Seq<char>, pressed: bool, elapsed_ms: u32) -> bool {
    &&& new == (Editor { record_buf: new.record_buf, ..old })
    &&& new.record_buf@.len() == old.record_buf@.len() + 1
    &&& new.record_buf@.drop_last() == old.record_buf@
    &&& new.record_buf@.last().name@ == name
    &&& new.record_buf@.last().pressed == pressed
    &&& new.record_buf@.last().elapsed_ms == elapsed_ms
}

/// What a recording message does to the editor.
pub enum RecordOutcome {
    /// The key was added to the recording.
    Recording,
    /// The recording ended; the profile with this index (if any) must be saved.
    Finished(Option<usize>),
}

/// What the editor does about an auto-detect result, given the profile of
/// the running session.
#[derive(Clone, Copy, Debug, PartialEq, Eq, Structural)]
pub enum DetectAction {
    /// Load this profile.
    Load(u128),
    /// Stop the running session.
    Stop,
    /// Nothing.
    Keep,
}

/// A detected profile is loaded unless it already runs; a lost game stops
/// the session only when auto-detect started it.
pub open spec fn detect_action_spec(ev: Option<DetectEvent>, active: Option<u128>, auto_detected: Option<u128>) -> DetectAction {
    match ev {
        Some(DetectEvent::Found(id)) => if active != Some(id) {
            DetectAction::Load(id)
        } else {
            DetectAction::Keep
        },
        Some(DetectEvent::Lost) => if auto_detected is Some && active == auto_detected {
            DetectAction::Stop
        } else {
            DetectAction::Keep
        },
        None => DetectAction::Keep,
    }
}

/// The last `n` entries (all of them when there are fewer).
pub open spec fn keep_last(s: Seq<Seq<char>>, n: nat) -> Seq<Seq<char>> {
    if s.len() > n {
        s.skip(s.len() - n)
    } else {
        s
    }
}

impl Editor {
    fn add_learned_assignment(&mut self, key: String, device: String) -> (r: Option<usize>)
        requires
            old(self).learn_target == Some(LearnTarget::AssignmentSource(usize::MAX)),
        ensures
            added_learned(*old(self), *final(self), key@, device@, r),
    {
        self.learn_target = None;
        self.adding_assignment = false;
        let (actual, held) = split_learned(key.as_str());
        let mods = self.current_modifier_ids(&held);
        let guard = assignment_guard(
            self.profile_ref(),
            actual.as_str(),
            mods.as_slice(),
            Some(device.as_str()),
            &TriggerMode::Any,
            usize::MAX,
        );
        match guard {
            Some(msg) => {
                self.warn_popup = Some(msg);
                None
            },
            None => {
                match self.save_index() {
                    Some(i) => {
                        let ghost before = self.profiles@;
                        let mut a = KeyAssignment::new(actual);
                        a.source_device = Some(device);
                        a.modifiers = mods;
                        let mut p = self.profiles.remove(i);
                        let ghost p0 = p;
                        p.assignments.push(a);
                        assert(p.assignments@.drop_last() =~= p0.assignments@);
                        self.profiles.insert(i, p);
                        proof {
                            assert forall|j: int| 0 <= j < before.len() && j != i implies self.profiles@[j] == before[j] by {
                                if j < i {
                                } else {
                                }
                            }
                        }
                        Some(i)
                    },
                    None => None,
                }
            },
        }
    }

    /// Handles the result of key learning: a new assignment's source key, or
    /// whatever else the key was learned for.
    pub fn learned(&mut self, key: String, device: String) -> (r: Option<usize>)
        requires
            old(self).macro_slot_valid(),
        ensures
            old(self).learn_target == Some(LearnTarget::AssignmentSource(usize::MAX)) ==> added_learned(
                *old(self),
                *final(self),
                key@,
                device@,
                r,
            ),
            old(self).learn_target != Some(LearnTarget::AssignmentSource(usize::MAX)) ==> handled_learned(
                *old(self),
                *final(self),
                key@,
                device@,
                r,
            ),
    {
        if let Some(LearnTarget::AssignmentSource(idx)) = self.learn_target {
            if idx == usize::MAX {
                return self.add_learned_assignment(key, device);
            }
        }
        self.handle_learned(key, device)
    }

    /// Ends a recording: the recorded keys become steps of the selected
    /// macro; returns the index of the profile to save.
    pub fn finish_recording(&mut self) -> (r: Option<usize>)
        requires
            old(self).macro_slot_valid(),
        ensures
            finished_recording(*old(self), *final(self), r),
    {
        self.recording = false;
        let mut buf: Vec<RecordedKey> = Vec::new();
        std::mem::swap(&mut buf, &mut self.record_buf);
        match (self.selected, self.selected_macro) {
            (Some(pi), Some(mi)) => {
                let ghost before = self.profiles@;
                let mut p = self.profiles.remove(pi);
                let ghost macros_before = p.macros@;
                let mut m = p.macros.remove(mi);
                let ghost m0 = m;
                match m.mode {
                    StepMode::Simple => {
                        let mut steps = buf_to_simple_steps(buf.as_slice());
                        let ghost added = steps@;
                        m.simple_steps.append(&mut steps);
                        assert(m.simple_steps@.take(m0.simple_steps@.len() as int) =~= m0.simple_steps@);
                        assert(m.simple_steps@.skip(m0.simple_steps@.len() as int) =~= added);
                    },
                    StepMode::Advanced => {
                        let mut steps = buf_to_advanced_steps(buf.as_slice());
                        let ghost added = steps@;
                        m.advanced_steps.append(&mut steps);
                        assert(m.advanced_steps@.take(m0.advanced_steps@.len() as int) =~= m0.advanced_steps@);
                        assert(m.advanced_steps@.skip(m0.advanced_steps@.len() as int) =~= added);
                    },
                }
                p.macros.insert(mi, m);
                self.profiles.insert(pi, p);
                proof {
                    assert forall|j: int| 0 <= j < before.len() && j != pi implies self.profiles@[j] == before[j] by {
                        if j < pi {
                        } else {
                        }
                    }
                    assert forall|j: int| 0 <= j < macros_before.len() && j != mi implies self.profiles@[pi as int].macros@[j]
                        == macros_before[j] by {
                        if j < mi {
                        } else {
                        }
                    }
                }
                Some(pi)
            },
            _ => None,
        }
    }

    /// Takes one message of the recording readers.
    pub fn record_message(&mut self, msg: RecordMsg) -> (r: RecordOutcome)
        requires
            old(self).macro_slot_valid(),
        ensures
            match msg {
                RecordMsg::Key { name, pressed, elapsed_ms } => r is Recording && recorded_key(
                    *old(self),
                    *final(self),
                    name@,
                    pressed,
                    elapsed_ms,
                ),
                RecordMsg::Stop => r matches RecordOutcome::Finished(s) && finished_recording(
                    *old(self),
                    *final(self),
                    s,
                ),
            },
    {
        match msg {
            RecordMsg::Key { name, pressed, elapsed_ms } => {
                let ghost b0 = self.record_buf@;
                self.record_buf.push(RecordedKey { name, pressed, elapsed_ms });
                assert(self.record_buf@.drop_last() =~= b0);
                RecordOutcome::Recording
            },
            RecordMsg::Stop => RecordOutcome::Finished(self.finish_recording()),
        }
    }

    /// Decides what to do about an auto-detect result, given the profile of
    /// the running session; a stop forgets the auto-detected profile.
    pub fn on_detect(&mut self, ev: Option<DetectEvent>, active: Option<u128>) -> (r: DetectAction)
        ensures
            r == detect_action_spec(ev, active, old(self).auto_detected_uuid),
            r == DetectAction::Stop ==> *final(self) == (Editor { auto_detected_uuid: None, ..*old(self) }),
            r != DetectAction::Stop ==> *final(self) == *old(self),
    {
        match ev {
            Some(DetectEvent::Found(id)) => {
                if active != Some(id) {
                    DetectAction::Load(id)
                } else {
                    DetectAction::Keep
                }
            },
            Some(DetectEvent::Lost) => {
                if self.auto_detected_uuid.is_some() && active == self.auto_detected_uuid {
                    self.auto_detected_uuid = None;
                    DetectAction::Stop
                } else {
                    DetectAction::Keep
                }
            },
            None => DetectAction::Keep,
        }
    }

    /// A detected profile was loaded: it is remembered as auto-detected and
    /// selected, when it is in the list.
    pub fn detected_loaded(&mut self, id: u128)
        ensures
            *final(self) == (Editor {
                auto_detected_uuid: Some(id),
                selected: match profile_index(old(self).profiles@, id) {
                    Some(i) => Some(i as usize),
                    None => old(self).selected,
                },
                ..*old(self)
            }),
    {
        self.auto_detected_uuid = Some(id);
        match find_profile(&self.profiles, id) {
            Some(i) => {
                self.selected = Some(i);
            },
            None => {},
        }
    }

    /// Whether the auto-detect scanner must (re)start now; it is then no
    /// longer due.
    pub fn take_scanner_restart(&mut self) -> (r: bool)
        ensures
            r == (old(self).auto_switch && old(self).scanner_dirty),
            *final(self) == (Editor { scanner_dirty: old(self).scanner_dirty && !r, ..*old(self) }),
    {
        if self.auto_switch && self.scanner_dirty {
            self.scanner_dirty = false;
            true
        } else {
            false
        }
    }

    /// Appends drained engine log lines, keeping the last
    /// `ENGINE_LOG_CAPACITY`; nothing changes when there are none.
    pub fn append_log(&mut self, new: Vec<String>)
        ensures
            new@.len() == 0 ==> *final(self) == *old(self),
            new@.len() > 0 ==> *final(self) == (Editor { log_entries: final(self).log_entries, ..*old(self) })
                && strings_view(final(self).log_entries@) == keep_last(
                strings_view(old(self).log_entries@) + strings_view(new@),
                ENGINE_LOG_CAPACITY as nat,
            ),
    {
        if new.len() == 0 {
            return;
        }
        let mut all: Vec<String> = Vec::new();
        std::mem::swap(&mut all, &mut self.log_entries);
        let ghost a0 = all@;
        let mut more = new;
        all.append(&mut more);
        let ghost joined = all@;
        assert(strings_view(joined) =~= strings_view(a0) + strings_view(new@));
        let excess: usize = if all.len() > ENGINE_LOG_CAPACITY {
            all.len() - ENGINE_LOG_CAPACITY
        } else {
            0
        };
        let mut kept: Vec<String> = Vec::new();
        let mut k: usize = excess;
        while k < all.len()
            invariant
                excess <= k <= all@.len(),
                all@ == joined,
                kept@ == joined.subrange(excess as int, k as int),
            decreases all@.len() - k,
        {
            let s = all[k].clone();
            kept.push(s);
            proof {
                assert(kept@.last() == s);
            }
            k = k + 1;
        }
        self.log_entries = kept;
        proof {
            let target = keep_last(strings_view(a0) + strings_view(new@), ENGINE_LOG_CAPACITY as nat);
            assert(strings_view(self.log_entries@) =~= target);
        }
    }
}

impl Editor {
    /// Creates a profile named by the trimmed text (nothing when it is
    /// blank); the list stays in name order and its last profile becomes
    /// selected. Returns the new profile's identifier, to save it.
    pub fn create_profile(&mut self, name: &str) -> (r: Option<u128>)
        ensures
            trim_spec(name@).len() == 0 ==> r is None && *final(self) == *old(self),
            trim_spec(name@).len() > 0 ==> ({
                &&& r is Some
                &&& *final(self) == (Editor {
                    profiles: final(self).profiles,
                    selected: Some((final(self).profiles@.len() - 1) as usize),
                    ..*old(self)
                })
                &&& crate::store::sorted_by_name(final(self).profiles@)
                &&& exists|q: Profile|
                    q.id == r->0 && q.name@ == trim_spec(name@) && q.modifiers@.len() == 0 && q.macros@.len() == 0
                        && q.assignments@.len() == 0 && final(self).profiles@.to_multiset()
                        == old(self).profiles@.to_multiset().insert(q)
            }),
    {
        let cs = chars_of(name);
        let t = trim_chars(cs.as_slice());
        if t.len() == 0 {
            return None;
        }
        let p = Profile::new(crate::text::string_from_chars(t.as_slice()));
        let id = p.id;
        let ghost q = p;
        let mut all: Vec<Profile> = Vec::new();
        std::mem::swap(&mut all, &mut self.profiles);
        let ghost before = all@;
        all.push(p);
        proof {
            before.to_multiset_ensures();
        }
        let ghost pushed = all@;
        let sorted = crate::store::sort_by_name(all);
        proof {
            sorted@.to_multiset_ensures();
            pushed.to_multiset_ensures();
            assert(pushed == before.push(q));
            assert(sorted@.len() == before.len() + 1);
        }
        self.profiles = sorted;
        self.selected = Some(self.profiles.len() - 1);
        Some(id)
    }

    /// Deletes the selected profile: nothing is selected afterwards, and
    /// the removed profile comes back so that its file can be deleted.
    pub fn delete_selected_profile(&mut self) -> (r: Option<Profile>)
        requires
            old(self).selected matches Some(i) ==> i < old(self).profiles@.len(),
        ensures
            match old(self).selected {
                Some(i) => r == Some(old(self).profiles@[i as int]) && *final(self) == (Editor {
                    profiles: final(self).profiles,
                    selected: None,
                    selected_macro: None,
                    ..*old(self)
                }) && final(self).profiles@ == old(self).profiles@.remove(i as int),
                None => r is None && *final(self) == *old(self),
            },
    {
        match self.selected {
            Some(i) => {
                let p = self.profiles.remove(i);
                self.selected = None;
                self.selected_macro = None;
                Some(p)
            },
            None => None,
        }
    }
}

impl Editor {
    /// Adds a `New Macro` (Single, simple steps, empty) to the selected
    /// profile and selects it. Returns the profile's index, to save it;
    /// without a selected profile nothing happens.
    pub fn new_macro(&mut self) -> (r: Option<usize>)
        ensures
            r == old(self).save_target(),
            old(self).save_target() is None ==> *final(self) == *old(self),
            old(self).save_target() matches Some(i) ==> ({
                let p0 = old(self).profiles@[i as int];
                let p1 = final(self).profiles@[i as int];
                let m = p1.macros@.last();
                &&& final(self).profiles@.len() == old(self).profiles@.len()
                &&& forall|j: int|
                    0 <= j < old(self).profiles@.len() && j != i ==> final(self).profiles@[j] == old(self).profiles@[j]
                &&& p1 == (Profile { macros: p1.macros, ..p0 })
                &&& p1.macros@.len() == p0.macros@.len() + 1
                &&& p1.macros@.drop_last() == p0.macros@
                &&& m.name@ == "New Macro"@
                &&& m.fire == FireMode::Single
                &&& m.mode == StepMode::Simple
                &&& m.start_delay_ms == 0 && m.loop_delay_ms == 0
                &&& m.simple_steps@.len() == 0 && m.advanced_steps@.len() == 0 && m.events@.len() == 0
                &&& *final(self) == (Editor {
                    profiles: final(self).profiles,
                    selected_macro: Some(p0.macros@.len() as usize),
                    ..*old(self)
                })
                &&& final(self).macro_slot_valid()
            }),
    {
        match self.save_index() {
            Some(pi) => {
                let ghost before = self.profiles@;
                let mut p = self.profiles.remove(pi);
                let ghost p0 = p;
                let n = p.macros.len();
                p.macros.push(Macro::new(String::from_str("New Macro")));
                proof {
                    assert(p.macros@.drop_last() =~= p0.macros@);
                    assert(p == (Profile { macros: p.macros, ..p0 }));
                }
                self.profiles.insert(pi, p);
                proof {
                    assert forall|j: int| 0 <= j < before.len() && j != pi implies self.profiles@[j] == before[j] by {
                        if j < pi {
                        } else {
                        }
                    }
                }
                self.selected_macro = Some(n);
                Some(pi)
            },
            None => None,
        }
    }

    /// Switches automatic profile switching on or off; switching it on makes
    /// the scanner due to start. Returns whether the running scanner must
    /// stop (it was on).
    pub fn toggle_auto_switch(&mut self) -> (stop: bool)
        ensures
            stop == old(self).auto_switch,
            *final(self) == (Editor {
                auto_switch: !old(self).auto_switch,
                scanner_dirty: old(self).scanner_dirty || !old(self).auto_switch,
                ..*old(self)
            }),
    {
        let was_on = self.auto_switch;
        self.auto_switch = !was_on;
        if !was_on {
            self.scanner_dirty = true;
        }
        was_on
    }

    /// Selects profile `i`; picking a profile other than the selected one
    /// drops the macro selection.
    pub fn select_profile(&mut self, i: usize)
        ensures
            old(self).selected == Some(i) ==> *final(self) == *old(self),
            old(self).selected != Some(i) ==> *final(self) == (Editor {
                selected: Some(i),
                selected_macro: None,
                ..*old(self)
            }),
    {
        if self.selected != Some(i) {
            self.selected = Some(i);
            self.selected_macro = None;
        }
    }

    /// Run (or Re-apply) the selected profile: it is saved (the caller
    /// writes it), and the session that comes is the user's, not
    /// auto-detection's. Returns the profile's position and identifier, to
    /// save and load it.
    pub fn run_selected(&mut self) -> (r: Option<(usize, u128)>)
        ensures
            old(self).save_target() is None ==> r is None && *final(self) == *old(self),
            old(self).save_target() matches Some(i) ==> r == Some((i, old(self).profiles@[i as int].id))
                && *final(self) == (Editor {
                    scanner_dirty: old(self).scanner_dirty || old(self).auto_switch,
                    auto_detected_uuid: None,
                    ..*old(self)
                }),
    {
        match self.save_index() {
            Some(i) => {
                let _ = self.save_current();
                self.auto_detected_uuid = None;
                Some((i, self.profiles[i].id))
            },
            None => None,
        }
    }
}

/// Learning the same key on the same device for a new assignment a second
/// time is refused as a duplicate, and the profiles stay as they are.
pub proof fn law_second_identical_assignment_refused(
    e0: Editor,
    e1: Editor,
    e2: Editor,
    key: Seq<char>,
    device: Seq<char>,
    r1: Option<usize>,
    r2: Option<usize>,
)
    requires
        added_learned(e0, e1, key, device, r1),
        r1 is Some,
        added_learned(
            Editor { learn_target: Some(LearnTarget::AssignmentSource(usize::MAX)), ..e1 },
            e2,
            key,
            device,
            r2,
        ),
    ensures
        r2 is None,
        e2.profiles == e1.profiles,
        opt_view(e2.warn_popup) == Some(
            learned_parts(key).0 + " is already assigned with the same modifiers and trigger mode."@,
        ),
{
    let (actual, held) = learned_parts(key);
    let i = r1->0;
    let p = e0.profiles@[i as int];
    let q = e1.profiles@[i as int];
    let e1b = Editor { learn_target: Some(LearnTarget::AssignmentSource(usize::MAX)), ..e1 };
    assert(e1b.current() == Some(q));
    let mods = modifier_ids(p.modifiers@, held);
    assert(q.modifiers == p.modifiers);
    assert(q.blocked_keys == p.blocked_keys);
    let j = q.assignments@.len() - 1;
    assert(q.assignments.len() == q.assignments@.len());
    assert(same_assignment(q.assignments@[j], actual, mods, Some(device), TriggerMode::Any));
    assert(crate::editor::duplicate_in(q, actual, mods, Some(device), TriggerMode::Any, usize::MAX));
}

} // verus!
