//! Input devices: how each evdev event is shown in the monitor, which
//! devices have keys a profile uses, whether the user can open them, and the
//! root scripts that grant access.
use vstd::prelude::*;
use crate::constants::{BTN_TRIGGER_HAPPY_BASE, BTN_TRIGGER_HAPPY_MAX, KEY_MACRO_BASE, KEY_MACRO_MAX};
use crate::event_types::EventHighlight;
use crate::keys::{evdev_key_name, key_debug_name};
use crate::text::{
    chars_eq, chars_of, dec_digits, extend_str, int_text, lower_hex, push_decimal, push_int, push_lower_hex,
    starts_with, string_from_chars,
};

pub mod reader;

pub use reader::DeviceReader;

verus! {

// ── Classifying events ────────────────────────────────────────────────────────

/// What evdev's `Debug` prints for the kind of an event with this type and
/// code, such as `Synchronization(SYN_REPORT)` or `RelAxis(REL_X)`.
pub uninterp spec fn kind_debug_name(ev_type: u16, code: u16) -> Seq<char>;

/// `format!("{:?}", event.kind())` for an event of this type and code.
#[verifier::external_body]
fn event_kind_name(ev_type: u16, code: u16) -> (r: String)
    ensures
        r@ == kind_debug_name(ev_type, code),
{
    format!("{:?}", evdev::InputEvent::new(evdev::EventType(ev_type), code, 0).kind())
}

/// Named gaming keys: KEY_MACRO1–30, BTN_TRIGGER_HAPPY1–40, KEY_F13–KEY_F24
/// (183–194) and KEY_PROG1–KEY_PROG4 (149–152).
pub open spec fn gaming_key(code: u16) -> bool {
    ||| KEY_MACRO_BASE <= code <= KEY_MACRO_MAX
    ||| BTN_TRIGGER_HAPPY_BASE <= code <= BTN_TRIGGER_HAPPY_MAX
    ||| 183 <= code <= 194
    ||| 149 <= code <= 152
}

/// Whether a key code is one of the gaming keys.
pub fn is_gaming_key(code: u16) -> (r: bool)
    ensures
        r == gaming_key(code),
{
    (KEY_MACRO_BASE <= code && code <= KEY_MACRO_MAX) || (BTN_TRIGGER_HAPPY_BASE <= code && code
        <= BTN_TRIGGER_HAPPY_MAX) || (183 <= code && code <= 194) || (149 <= code && code <= 152)
}

/// How a key event's value is shown.
pub open spec fn key_value_text(v: i32) -> Seq<char> {
    if v == 1 {
        "press"@
    } else if v == 0 {
        "release"@
    } else if v == 2 {
        "repeat"@
    } else {
        int_text(v as int)
    }
}

/// A key name that evdev gives a code without a constant of its own:
/// `unknown key: N` (or `Key(N)`, as other evdev versions print it).
pub open spec fn unnamed(raw: Seq<char>) -> bool {
    "Key("@.is_prefix_of(raw) || "unknown key:"@.is_prefix_of(raw)
}

/// The name and highlight of a key: a code that evdev has no name for is
/// shown as `KEY_UNKNOWN` with the scan code that came just before it, if
/// any.
pub open spec fn key_label(code: u16, scan: Option<u32>) -> (Seq<char>, EventHighlight) {
    let raw = key_debug_name(code);
    if unnamed(raw) {
        (
            "KEY_UNKNOWN"@ + match scan {
                Some(s) => " [scan=0x"@ + lower_hex(s as nat) + "]"@,
                None => seq![],
            },
            EventHighlight::Unknown,
        )
    } else if gaming_key(code) {
        (raw, EventHighlight::Gaming)
    } else {
        (raw, EventHighlight::Normal)
    }
}

/// The monitor's view of one event (type label, code name, value text,
/// highlight), and the scan code carried to the next event. `MSC_SCAN`
/// arrives just before an unnamed key's event: its value is carried one
/// event forward; any other event drops it.
pub open spec fn classify_spec(ev_type: u16, code: u16, value: i32, pending: Option<u32>) -> (
    (Seq<char>, Seq<char>, Seq<char>, EventHighlight),
    Option<u32>,
) {
    if ev_type == 0 {
        (("EV_SYN"@, kind_debug_name(ev_type, code), seq![], EventHighlight::Sync), None)
    } else if ev_type == 4 && code == 4 {
        (("EV_MSC"@, "MSC_SCAN"@, "0x"@ + lower_hex((value as u32) as nat), EventHighlight::Normal), Some(value as u32))
    } else if ev_type == 1 {
        let (name, hl) = key_label(code, pending);
        (("EV_KEY"@, name, key_value_text(value), hl), None)
    } else if ev_type == 2 {
        let v = if value >= 0 {
            seq!['+'] + int_text(value as int)
        } else {
            int_text(value as int)
        };
        (("EV_REL"@, kind_debug_name(ev_type, code), v, EventHighlight::Normal), None)
    } else if ev_type == 3 {
        (("EV_ABS"@, kind_debug_name(ev_type, code), int_text(value as int), EventHighlight::Normal), None)
    } else {
        (("EV_?"@, kind_debug_name(ev_type, code), int_text(value as int), EventHighlight::Normal), None)
    }
}

fn int_string(v: i32) -> (r: String)
    ensures
        r@ == int_text(v as int),
{
    let mut out: Vec<char> = Vec::new();
    push_int(&mut out, v);
    assert(out@ =~= int_text(v as int));
    string_from_chars(out.as_slice())
}

fn key_value_string(v: i32) -> (r: String)
    ensures
        r@ == key_value_text(v),
{
    if v == 1 {
        String::from_str("press")
    } else if v == 0 {
        String::from_str("release")
    } else if v == 2 {
        String::from_str("repeat")
    } else {
        int_string(v)
    }
}

fn key_label_exec(code: u16, scan: Option<u32>) -> (r: (String, EventHighlight))
    ensures
        (r.0@, r.1) == key_label(code, scan),
{
    let raw_name = evdev_key_name(code);
    let raw = chars_of(raw_name.as_str());
    let prefix = chars_of("Key(");
    let unknown = chars_of("unknown key:");
    if starts_with(raw.as_slice(), prefix.as_slice()) || starts_with(raw.as_slice(), unknown.as_slice()) {
        let mut out: Vec<char> = Vec::new();
        extend_str(&mut out, "KEY_UNKNOWN");
        match scan {
            Some(s) => {
                extend_str(&mut out, " [scan=0x");
                push_lower_hex(&mut out, s);
                extend_str(&mut out, "]");
            },
            None => {},
        }
        assert(out@ =~= key_label(code, scan).0);
        (string_from_chars(out.as_slice()), EventHighlight::Unknown)
    } else if is_gaming_key(code) {
        (raw_name, EventHighlight::Gaming)
    } else {
        (raw_name, EventHighlight::Normal)
    }
}

/// Classifies an evdev event (type, code, value) for the monitor, keeping
/// the scan code that a following unnamed key reports.
pub fn classify(ev_type: u16, code: u16, value: i32, pending_scan: &mut Option<u32>) -> (r: (
    &'static str,
    String,
    String,
    EventHighlight,
))
    ensures
        ((r.0@, r.1@, r.2@, r.3), *final(pending_scan)) == classify_spec(ev_type, code, value, *old(pending_scan)),
{
    if ev_type == 0 {
        *pending_scan = None;
        ("EV_SYN", event_kind_name(ev_type, code), String::new(), EventHighlight::Sync)
    } else if ev_type == 4 && code == 4 {
        *pending_scan = Some(value as u32);
        let mut out: Vec<char> = Vec::new();
        extend_str(&mut out, "0x");
        push_lower_hex(&mut out, value as u32);
        ("EV_MSC", String::from_str("MSC_SCAN"), string_from_chars(out.as_slice()), EventHighlight::Normal)
    } else if ev_type == 1 {
        let scan = pending_scan.take();
        let (code_name, highlight) = key_label_exec(code, scan);
        ("EV_KEY", code_name, key_value_string(value), highlight)
    } else if ev_type == 2 {
        *pending_scan = None;
        let val = if value >= 0 {
            let mut out: Vec<char> = Vec::new();
            out.push('+');
            push_int(&mut out, value);
            assert(out@ =~= seq!['+'] + int_text(value as int));
            string_from_chars(out.as_slice())
        } else {
            int_string(value)
        };
        ("EV_REL", event_kind_name(ev_type, code), val, EventHighlight::Normal)
    } else if ev_type == 3 {
        *pending_scan = None;
        ("EV_ABS", event_kind_name(ev_type, code), int_string(value), EventHighlight::Normal)
    } else {
        *pending_scan = None;
        ("EV_?", event_kind_name(ev_type, code), int_string(value), EventHighlight::Normal)
    }
}

// ── Devices a profile needs ───────────────────────────────────────────────────

/// Some supported key has one of the names (by evdev's `Debug` name).
pub open spec fn supports_any_spec(supported: Option<Seq<u16>>, names: Seq<Seq<char>>) -> bool {
    match supported {
        None => false,
        Some(ks) => has_named_key(ks, names),
    }
}

/// Some key code has one of the names.
pub open spec fn has_named_key(ks: Seq<u16>, names: Seq<Seq<char>>) -> bool {
    exists|i: int, j: int| 0 <= i < ks.len() && 0 <= j < names.len() && #[trigger] key_debug_name(ks[i]) == #[trigger] names[j]
}

/// The characters of each name.
pub open spec fn names_view(names: Seq<&str>) -> Seq<Seq<char>> {
    names.map_values(|n: &str| n@)
}

fn names_contain(key_names: &[&str], name: &[char]) -> (r: bool)
    ensures
        r == names_view(key_names@).contains(name@),
{
    let ghost nv = names_view(key_names@);
    let mut j: usize = 0;
    while j < key_names.len()
        invariant
            j <= key_names@.len(),
            nv == names_view(key_names@),
            forall|q: int| 0 <= q < j ==> nv[q] != name@,
        decreases key_names@.len() - j,
    {
        let n = chars_of(key_names[j]);
        assert(nv[j as int] == key_names@[j as int]@);
        if chars_eq(n.as_slice(), name) {
            assert(nv[j as int] == name@);
            return true;
        }
        j = j + 1;
    }
    false
}

/// Whether a device with these supported key codes (`None`: it reports no
/// keys) has any key whose name is one of `key_names` (e.g. "KEY_LEFTALT").
pub fn device_supports_any(supported: Option<&[u16]>, key_names: &[&str]) -> (r: bool)
    ensures
        r == supports_any_spec(
            match supported {
                Some(s) => Some(s@),
                None => None,
            },
            names_view(key_names@),
        ),
{
    let keys = match supported {
        None => {
            return false;
        },
        Some(k) => k,
    };
    let ghost nv = names_view(key_names@);
    let mut i: usize = 0;
    while i < keys.len()
        invariant
            i <= keys@.len(),
            supported == Some(keys),
            nv == names_view(key_names@),
            forall|a: int, j: int|
                0 <= a < i && 0 <= j < nv.len() ==> #[trigger] key_debug_name(keys@[a]) != #[trigger] nv[j],
        decreases keys@.len() - i,
    {
        let name = evdev_key_name(keys[i]);
        let cs = chars_of(name.as_str());
        if names_contain(key_names, cs.as_slice()) {
            proof {
                let j = choose|j: int| 0 <= j < nv.len() && nv[j] == cs@;
                assert(key_debug_name(keys@[i as int]) == nv[j]);
            }
            return true;
        }
        i = i + 1;
    }
    false
}

// ── Devices read ──────────────────────────────────────────────────────────────

/// An input device that a reader thread was started for.
pub struct DeviceInfo {
    /// Its node, such as `/dev/input/event3`.
    pub path: String,
    /// The name the device reports.
    pub name: String,
}

// ── Access to the event nodes ─────────────────────────────────────────────────

/// Whether the event nodes can be read.
#[derive(Clone, Copy, Debug, PartialEq, Eq, Structural)]
pub enum AccessStatus {
    /// Some event node can be opened.
    Granted,
    /// Event nodes exist but can't be opened — user not in 'input' group
    Denied,
    /// No event nodes found at all (unusual)
    NoDevices,
}

/// An entry of `/dev/input` is an event node.
pub open spec fn is_event_node(name: Seq<char>) -> bool {
    "event"@.is_prefix_of(name)
}

/// `Granted` when some event node can be opened, `Denied` when there are event
/// nodes but none opens, `NoDevices` when there is none or the directory
/// cannot be read (`None`).
pub open spec fn access_spec(nodes: Option<Seq<(Seq<char>, bool)>>) -> AccessStatus {
    match nodes {
        None => AccessStatus::NoDevices,
        Some(ns) => if exists|i: int| 0 <= i < ns.len() && is_event_node(#[trigger] ns[i].0) && ns[i].1 {
            AccessStatus::Granted
        } else if exists|i: int| 0 <= i < ns.len() && is_event_node(#[trigger] ns[i].0) {
            AccessStatus::Denied
        } else {
            AccessStatus::NoDevices
        },
    }
}

/// The entries of `/dev/input` as (name, whether it opens) pairs.
pub open spec fn nodes_view(ns: Seq<(String, bool)>) -> Seq<(Seq<char>, bool)> {
    ns.map_values(|n: (String, bool)| (n.0@, n.1))
}

/// Quick pre-flight check over the entries of `/dev/input` (`None` if the
/// directory cannot be read): can any event node be opened?
pub fn check_access(nodes: Option<&Vec<(String, bool)>>) -> (r: AccessStatus)
    ensures
        r == access_spec(
            match nodes {
                Some(ns) => Some(nodes_view(ns@)),
                None => None,
            },
        ),
{
    let ns = match nodes {
        None => {
            return AccessStatus::NoDevices;
        },
        Some(ns) => ns,
    };
    let ghost v = nodes_view(ns@);
    let prefix = chars_of("event");
    let mut found_event_node = false;
    let mut i: usize = 0;
    while i < ns.len()
        invariant
            i <= ns@.len(),
            nodes == Some(ns),
            v == nodes_view(ns@),
            prefix@ == "event"@,
            found_event_node == exists|q: int| 0 <= q < i && is_event_node(#[trigger] v[q].0),
            forall|q: int| 0 <= q < i && is_event_node(#[trigger] v[q].0) ==> !v[q].1,
        decreases ns@.len() - i,
    {
        let name = chars_of(ns[i].0.as_str());
        assert(v[i as int] == (ns@[i as int].0@, ns@[i as int].1));
        if starts_with(name.as_slice(), prefix.as_slice()) {
            found_event_node = true;
            assert(is_event_node(v[i as int].0));
            if ns[i].1 {
                return AccessStatus::Granted;
            }
        } else {
            assert(!is_event_node(v[i as int].0));
            assert((exists|q: int| 0 <= q < i + 1 && is_event_node(#[trigger] v[q].0)) == (exists|q: int|
                0 <= q < i && is_event_node(#[trigger] v[q].0)));
        }
        i = i + 1;
    }
    if found_event_node {
        AccessStatus::Denied
    } else {
        AccessStatus::NoDevices
    }
}

// ── Root scripts ──────────────────────────────────────────────────────────────

/// Whether `char::is_alphanumeric` holds of a character (Unicode letters
/// and numbers).
pub uninterp spec fn alphanumeric(c: char) -> bool;

/// `char::is_alphanumeric`.
#[verifier::external_body]
fn is_alphanumeric(c: char) -> (r: bool)
    ensures
        r == alphanumeric(c),
{
    c.is_alphanumeric()
}

/// What `{:?}` prints for a string: quoted, with escapes.
pub uninterp spec fn debug_quoted(s: Seq<char>) -> Seq<char>;

/// `format!("{:?}", s)`.
#[verifier::external_body]
fn quoted(s: &str) -> (r: String)
    ensures
        r@ == debug_quoted(s@),
{
    format!("{:?}", s)
}

/// A user name safe to put in the setup script: letters, digits, `_`, `-`.
pub open spec fn safe_username(name: Seq<char>) -> bool {
    forall|i: int| 0 <= i < name.len() ==> alphanumeric(#[trigger] name[i]) || name[i] == '_' || name[i] == '-'
}

/// Whether a user name may go into the setup script.
pub fn username_is_safe(name: &str) -> (r: bool)
    ensures
        r == safe_username(name@),
{
    let cs = chars_of(name);
    let mut i: usize = 0;
    while i < cs.len()
        invariant
            i <= cs@.len(),
            cs@ == name@,
            forall|q: int| 0 <= q < i ==> alphanumeric(#[trigger] cs@[q]) || cs@[q] == '_' || cs@[q] == '-',
        decreases cs@.len() - i,
    {
        let c = cs[i];
        if !(is_alphanumeric(c) || c == '_' || c == '-') {
            return false;
        }
        i = i + 1;
    }
    true
}

/// The setup script: adds the user to `input`, installs the udev rules for
/// event nodes, uinput and hidraw, and reloads udev.
pub open spec fn setup_script_text(username: Seq<char>) -> Seq<char> {
    "#!/bin/sh\nset -e\nusermod -aG input "@ + username
        + "\ncat > /etc/udev/rules.d/99-gameremap.rules << 'GAMEREMAP_RULES'\nKERNEL==\"event*\", SUBSYSTEM==\"input\", GROUP=\"input\", MODE=\"0660\"\nKERNEL==\"uinput\", GROUP=\"input\", MODE=\"0660\"\nKERNEL==\"hidraw*\", GROUP=\"input\", MODE=\"0660\"\nGAMEREMAP_RULES\nudevadm control --reload\nudevadm trigger --subsystem-match=input\n"@
}

/// The teardown script: removes the rules file and reloads udev.
pub open spec fn teardown_script_text() -> Seq<char> {
    "#!/bin/sh\nrm -f /etc/udev/rules.d/99-gameremap.rules\nudevadm control --reload\nudevadm trigger --subsystem-match=input\n"@
}

/// `/tmp/gameremap-<stem>-<pid>.sh`.
pub open spec fn script_path_text(stem: Seq<char>, pid: u32) -> Seq<char> {
    "/tmp/gameremap-"@ + stem + seq!['-'] + dec_digits(pid as nat) + ".sh"@
}

fn script_path(stem: &str, pid: u32) -> (r: String)
    ensures
        r@ == script_path_text(stem@, pid),
{
    let mut out: Vec<char> = Vec::new();
    extend_str(&mut out, "/tmp/gameremap-");
    extend_str(&mut out, stem);
    out.push('-');
    push_decimal(&mut out, pid as u128, 0);
    extend_str(&mut out, ".sh");
    assert(out@ =~= script_path_text(stem@, pid));
    string_from_chars(out.as_slice())
}

/// The error for a user name that the setup script must not hold.
pub open spec fn username_error_text(username: Seq<char>) -> Seq<char> {
    "Unexpected characters in username "@ + debug_quoted(username) + "; aborting setup."@
}

/// The setup script to run as root for this process and user: its path and
/// text, or the refusal of an unsafe user name.
pub fn prepare_setup(username: &str, pid: u32) -> (r: Result<(String, String), String>)
    ensures
        safe_username(username@) ==> (r matches Ok((path, script)) && path@ == script_path_text("setup"@, pid)
            && script@ == setup_script_text(username@)),
        !safe_username(username@) ==> (r matches Err(e) && e@ == username_error_text(username@)),
{
    if !username_is_safe(username) {
        let mut out: Vec<char> = Vec::new();
        extend_str(&mut out, "Unexpected characters in username ");
        let q = quoted(username);
        extend_str(&mut out, q.as_str());
        extend_str(&mut out, "; aborting setup.");
        assert(out@ =~= username_error_text(username@));
        return Err(string_from_chars(out.as_slice()));
    }
    let mut script: Vec<char> = Vec::new();
    extend_str(&mut script, "#!/bin/sh\nset -e\nusermod -aG input ");
    extend_str(&mut script, username);
    extend_str(
        &mut script,
        "\ncat > /etc/udev/rules.d/99-gameremap.rules << 'GAMEREMAP_RULES'\nKERNEL==\"event*\", SUBSYSTEM==\"input\", GROUP=\"input\", MODE=\"0660\"\nKERNEL==\"uinput\", GROUP=\"input\", MODE=\"0660\"\nKERNEL==\"hidraw*\", GROUP=\"input\", MODE=\"0660\"\nGAMEREMAP_RULES\nudevadm control --reload\nudevadm trigger --subsystem-match=input\n",
    );
    assert(script@ =~= setup_script_text(username@));
    Ok((script_path("setup", pid), string_from_chars(script.as_slice())))
}

/// The teardown script to run as root for this process: its path and text.
pub fn prepare_teardown(pid: u32) -> (r: (String, String))
    ensures
        r.0@ == script_path_text("teardown"@, pid),
        r.1@ == teardown_script_text(),
{
    (
        script_path("teardown", pid),
        String::from_str(
            "#!/bin/sh\nrm -f /etc/udev/rules.d/99-gameremap.rules\nudevadm control --reload\nudevadm trigger --subsystem-match=input\n",
        ),
    )
}

/// The two root scripts.
#[derive(Clone, Copy, Debug, PartialEq, Eq, Structural)]
pub enum ScriptKind {
    Setup,
    Teardown,
}

impl ScriptKind {
    pub open spec fn label(self) -> Seq<char> {
        match self {
            ScriptKind::Setup => "Setup"@,
            ScriptKind::Teardown => "Teardown"@,
        }
    }
}

/// The message for a script run that did not succeed: pkexec's 126 is a
/// cancelled authentication, 127 a missing pkexec; other codes are reported
/// as such, and no code means a signal ended the process.
pub open spec fn failure_text(kind: ScriptKind, code: Option<i32>) -> Seq<char> {
    match code {
        Some(126) => "Authentication cancelled."@,
        Some(127) => "pkexec: command not found."@,
        Some(n) => kind.label() + " script exited with code "@ + int_text(n as int) + "."@,
        None => kind.label() + " process terminated by signal."@,
    }
}

/// The outcome of running a root script, from its exit status.
pub fn script_outcome(kind: ScriptKind, success: bool, code: Option<i32>) -> (r: Result<(), String>)
    ensures
        success ==> r is Ok,
        !success ==> (r matches Err(e) && e@ == failure_text(kind, code)),
{
    if success {
        return Ok(());
    }
    let mut out: Vec<char> = Vec::new();
    match code {
        Some(126) => {
            extend_str(&mut out, "Authentication cancelled.");
        },
        Some(127) => {
            extend_str(&mut out, "pkexec: command not found.");
        },
        Some(n) => {
            match kind {
                ScriptKind::Setup => extend_str(&mut out, "Setup"),
                ScriptKind::Teardown => extend_str(&mut out, "Teardown"),
            }
            extend_str(&mut out, " script exited with code ");
            push_int(&mut out, n);
            extend_str(&mut out, ".");
        },
        None => {
            match kind {
                ScriptKind::Setup => extend_str(&mut out, "Setup"),
                ScriptKind::Teardown => extend_str(&mut out, "Teardown"),
            }
            extend_str(&mut out, " process terminated by signal.");
        },
    }
    assert(out@ =~= failure_text(kind, code));
    Err(string_from_chars(out.as_slice()))
}

} // verus!
