//! Profiles, macros, modifier keys and key assignments.
//!
//! Identifiers are 128-bit values (the bits of a UUID).
use vstd::prelude::*;
use crate::constants::DEFAULT_EVENT_DELAY_MS;

verus! {

/// A fresh random identifier (`uuid::Uuid::new_v4`). Nothing is promised of
/// the value: it is random.
#[verifier::external_body]
pub(crate) fn new_id() -> u128 {
    uuid::Uuid::new_v4().as_u128()
}

// ── App-level settings ────────────────────────────────────────────────────────

/// Settings of the whole program.
#[derive(Debug, Clone)]
pub struct AppSettings {
    pub auto_switch_profiles: bool,
}

impl Default for AppSettings {
    fn default() -> (s: Self)
        ensures
            !s.auto_switch_profiles,
    {
        AppSettings { auto_switch_profiles: false }
    }
}

// ── Profile ───────────────────────────────────────────────────────────────────

/// The keys a new profile refuses to assign.
pub open spec fn default_blocked_key_names() -> Seq<Seq<char>> {
    seq!["KEY_ESC"@, "BTN_LEFT"@, "BTN_RIGHT"@]
}

/// The view of a list of strings.
pub open spec fn strings_view(v: Seq<String>) -> Seq<Seq<char>> {
    v.map_values(|s: String| s@)
}

/// The keys a new profile refuses to assign: KEY_ESC, BTN_LEFT, BTN_RIGHT.
pub fn default_blocked_keys() -> (r: Vec<String>)
    ensures
        strings_view(r@) == default_blocked_key_names(),
{
    let mut r: Vec<String> = Vec::new();
    r.push(String::from_str("KEY_ESC"));
    r.push(String::from_str("BTN_LEFT"));
    r.push(String::from_str("BTN_RIGHT"));
    assert(strings_view(r@) =~= default_blocked_key_names());
    r
}

/// One game's remapping: its modifiers, macros, assignments, blocked keys
/// and the processes that select it.
#[derive(Debug, Clone)]
pub struct Profile {
    pub id: u128,
    pub name: String,
    pub game_link: Option<GameLink>,
    pub modifiers: Vec<ModifierKey>,
    pub macros: Vec<Macro>,
    pub assignments: Vec<KeyAssignment>,
    pub blocked_keys: Vec<String>,
    pub auto_detect: Vec<AutoDetectTarget>,
}

impl Profile {
    /// A new empty profile with a fresh identifier and the default blocked keys.
    pub fn new(name: String) -> (p: Self)
        ensures
            p.name@ == name@,
            p.game_link.is_none(),
            p.modifiers@.len() == 0,
            p.macros@.len() == 0,
            p.assignments@.len() == 0,
            strings_view(p.blocked_keys@) == default_blocked_key_names(),
            p.auto_detect@.len() == 0,
    {
        Profile {
            id: new_id(),
            name,
            game_link: None,
            modifiers: Vec::new(),
            macros: Vec::new(),
            assignments: Vec::new(),
            blocked_keys: default_blocked_keys(),
            auto_detect: Vec::new(),
        }
    }
}

// ── Game link ─────────────────────────────────────────────────────────────────

/// At least one of steam_id / process should be set for detection to work.
#[derive(Debug, Clone)]
pub struct GameLink {
    pub display_name: String,
    pub steam_id: Option<u32>,
    pub process: Option<String>,
}

impl Default for GameLink {
    fn default() -> (g: Self)
        ensures
            g.display_name@.len() == 0,
            g.steam_id.is_none(),
            g.process.is_none(),
    {
        GameLink { display_name: String::new(), steam_id: None, process: None }
    }
}

// ── Auto-detect targets ───────────────────────────────────────────────────────

/// One auto-detect target: ALL fragments must appear (case-insensitive) in the
/// process exe path or cmdline for this target to match.
#[derive(Debug, Clone)]
pub struct AutoDetectTarget {
    pub id: u128,
    pub fragments: Vec<String>,
}

impl AutoDetectTarget {
    /// A target with a fresh identifier and no fragments.
    pub fn new() -> (t: Self)
        ensures
            t.fragments@.len() == 0,
    {
        AutoDetectTarget { id: new_id(), fragments: Vec::new() }
    }
}

// ── Modifier keys ─────────────────────────────────────────────────────────────

/// A key that, while held, selects the assignments that name it.
#[derive(Debug, Clone)]
pub struct ModifierKey {
    pub id: u128,
    /// evdev key name, e.g. "KEY_LEFTALT"
    pub key: String,
    /// User-visible label, e.g. "Alt"
    pub name: String,
    /// Only this device's presses of `key` act as the modifier; `None` means any device.
    pub source_device: Option<String>,
}

impl ModifierKey {
    /// A modifier with a fresh identifier that listens on every device.
    pub fn new(key: String, name: String) -> (m: Self)
        ensures
            m.key@ == key@,
            m.name@ == name@,
            m.source_device.is_none(),
    {
        ModifierKey { id: new_id(), key, name, source_device: None }
    }
}

// ── Macros ────────────────────────────────────────────────────────────────────

/// Whether a value is zero (such fields are left out when saved).
pub fn is_zero_u32(v: &u32) -> (r: bool)
    ensures
        r == (*v == 0),
{
    *v == 0
}

/// The delay of a loop event that names none.
pub fn default_event_delay_ms() -> (r: u32)
    ensures
        r == DEFAULT_EVENT_DELAY_MS,
{
    DEFAULT_EVENT_DELAY_MS
}

/// Whether a loop-event delay is the default one (left out when saved).
pub fn is_default_event_delay(v: &u32) -> (r: bool)
    ensures
        r == (*v == DEFAULT_EVENT_DELAY_MS),
{
    *v == DEFAULT_EVENT_DELAY_MS
}

/// Controls when a Single-macro assignment fires relative to the key hold duration.
#[derive(Debug, Clone, Copy, PartialEq, Eq, Structural)]
pub enum TriggerMode {
    /// Fires immediately on key press (default behaviour).
    Any,
    /// Fires on key release if held less than QUICK_PRESS_MAX_MS.
    QuickPress,
    /// Fires on key release if held from QUICK_PRESS_MAX_MS up to SHORT_HOLD_MAX_MS.
    ShortHold,
}

impl Default for TriggerMode {
    fn default() -> (t: Self)
        ensures
            t == TriggerMode::Any,
    {
        TriggerMode::Any
    }
}

/// Whether a macro runs once or repeats while its key is held.
#[derive(Debug, Clone, Copy, PartialEq, Eq, Structural)]
pub enum FireMode {
    /// Executes once on key press.
    Single,
    /// Repeats continuously while key is held.
    Loop,
}

/// How a macro's steps are written.
#[derive(Debug, Clone, Copy, PartialEq, Eq, Structural)]
pub enum StepMode {
    /// Each step presses-then-releases a key, with an optional delay after.
    Simple,
    /// Full control over individual press/release events and their timing.
    Advanced,
}

/// A named sequence of key events with its timing.
#[derive(Debug, Clone)]
pub struct Macro {
    pub id: u128,
    pub name: String,
    pub fire: FireMode,
    pub mode: StepMode,
    /// Delay (ms) before the first step fires.
    pub start_delay_ms: u32,
    /// For Loop macros: delay (ms) inserted between the end of one iteration and the start of the next.
    pub loop_delay_ms: u32,
    pub simple_steps: Vec<SimpleStep>,
    pub advanced_steps: Vec<AdvancedStep>,
    /// Events that fire at specific lifecycle points during loop execution.
    /// Only meaningful when fire == FireMode::Loop.
    pub events: Vec<LoopEvent>,
}

impl Macro {
    /// A new empty Single/Simple macro with a fresh identifier.
    pub fn new(name: String) -> (m: Self)
        ensures
            m.name@ == name@,
            m.fire == FireMode::Single,
            m.mode == StepMode::Simple,
            m.start_delay_ms == 0,
            m.loop_delay_ms == 0,
            m.simple_steps@.len() == 0,
            m.advanced_steps@.len() == 0,
            m.events@.len() == 0,
    {
        Macro {
            id: new_id(),
            name,
            fire: FireMode::Single,
            mode: StepMode::Simple,
            start_delay_ms: 0,
            loop_delay_ms: 0,
            simple_steps: Vec::new(),
            advanced_steps: Vec::new(),
            events: Vec::new(),
        }
    }
}

/// One step in simple mode: hold `action` for `hold_ms`, then wait `delay_after_ms`.
#[derive(Debug, Clone)]
pub struct SimpleStep {
    /// evdev key/button name, e.g. "KEY_Q" or "BTN_LEFT"
    pub action: String,
    /// How long to hold the key between DOWN and UP, in milliseconds.
    pub hold_ms: u32,
    /// How long to wait after the UP event before the next step, in milliseconds.
    pub delay_after_ms: u32,
}

/// One step in advanced mode: a single down or up event at a specific time.
#[derive(Debug, Clone, Copy, PartialEq, Eq, Structural)]
pub enum AdvancedEvent {
    KeyDown,
    KeyUp,
    MouseDown,
    MouseUp,
}

/// One key going down or up at a time offset.
#[derive(Debug, Clone)]
pub struct AdvancedStep {
    pub event: AdvancedEvent,
    /// evdev key/button name
    pub key: String,
    /// Absolute time offset from macro start, in milliseconds.
    pub time_ms: u32,
}

/// One event attached to a loop macro. Events fire at specific points
/// in the loop lifecycle and call a referenced Single-fire macro.
#[derive(Debug, Clone)]
pub struct LoopEvent {
    pub id: u128,
    /// Identifier of a Single-fire macro to invoke when this event fires.
    pub macro_id: u128,
    /// Scheduling order:
    ///   0  = fires before every loop iteration (pre-action)
    ///  -1  = fires when key is released / loop ends (end action)
    ///   N  = fires at the end of every Nth complete cycle (N > 0)
    pub order: i32,
    /// For end events (order == -1): minimum complete cycles that must
    /// have run before this end event fires. Ignored for other orders.
    pub min_loops: u32,
    /// Milliseconds to wait before invoking the event macro.
    pub delay_ms: u32,
}

// ── Key assignments ───────────────────────────────────────────────────────────

/// What a source key does: a remap or a macro, under modifiers and an
/// optional device filter.
#[derive(Debug, Clone)]
pub struct KeyAssignment {
    pub id: u128,
    /// Source evdev key name, e.g. "KEY_MACRO1"
    pub source_key: String,
    /// Optional device filter: evdev device name.
    /// `None` matches any device; `Some(name)` only matches that device.
    pub source_device: Option<String>,
    /// Modifier key identifiers (from this profile) that must be held simultaneously.
    pub modifiers: Vec<u128>,
    /// If set, remap to this key (mutually exclusive with macro_id).
    pub remap_key: Option<String>,
    /// If set, trigger this macro (mutually exclusive with remap_key).
    pub macro_id: Option<u128>,
    /// For Single-macro assignments: when to fire relative to hold duration.
    /// Ignored for remap assignments.
    pub trigger_mode: TriggerMode,
}

impl KeyAssignment {
    /// A new assignment of `source_key` with no target, modifiers or device filter.
    pub fn new(source_key: String) -> (a: Self)
        ensures
            a.source_key@ == source_key@,
            a.source_device.is_none(),
            a.modifiers@.len() == 0,
            a.remap_key.is_none(),
            a.macro_id.is_none(),
            a.trigger_mode == TriggerMode::Any,
    {
        KeyAssignment {
            id: new_id(),
            source_key,
            source_device: None,
            modifiers: Vec::new(),
            remap_key: None,
            macro_id: None,
            trigger_mode: TriggerMode::Any,
        }
    }
}

} // verus!
