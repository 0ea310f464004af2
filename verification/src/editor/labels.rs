//! What the editor writes for an assignment, a game link and the
//! auto-switch state, and how it reads a typed Steam id.
use vstd::prelude::*;
use crate::config::{FireMode, GameLink, KeyAssignment, Macro, ModifierKey};
use crate::engine::matching::{find_macro, lemma_macro_index_bounds, macro_index};
use crate::text::{chars_of, extend_str, parse_unsigned, parse_unsigned_spec, string_from_chars, trim_chars, trim_spec};

verus! {

// ── Assignment labels ─────────────────────────────────────────────────────────

/// The names of the modifiers, in profile order, whose identifiers are held.
pub open spec fn held_modifier_names(mods: Seq<ModifierKey>, held: Seq<u128>) -> Seq<Seq<char>>
    decreases mods.len(),
{
    if mods.len() == 0 {
        seq![]
    } else {
        let rest = held_modifier_names(mods.drop_last(), held);
        if held.contains(mods.last().id) {
            rest.push(mods.last().name@)
        } else {
            rest
        }
    }
}

/// The parts joined with `sep` between neighbours.
pub open spec fn join_with(parts: Seq<Seq<char>>, sep: Seq<char>) -> Seq<char>
    decreases parts.len(),
{
    if parts.len() == 0 {
        seq![]
    } else if parts.len() == 1 {
        parts[0]
    } else {
        join_with(parts.drop_last(), sep) + sep + parts.last()
    }
}

/// The source column of an assignment: `— not set —` without a source key,
/// the key alone without modifiers, else the held modifiers' names and the
/// key joined with ` + `.
pub open spec fn source_label_spec(mods: Seq<ModifierKey>, a: KeyAssignment) -> Seq<char> {
    if a.source_key@.len() == 0 {
        "\u{2014} not set \u{2014}"@
    } else if a.modifiers@.len() == 0 {
        a.source_key@
    } else {
        join_with(held_modifier_names(mods, a.modifiers@), " + "@) + " + "@ + a.source_key@
    }
}

fn has_id(v: &Vec<u128>, id: u128) -> (r: bool)
    ensures
        r == v@.contains(id),
{
    let mut i: usize = 0;
    while i < v.len()
        invariant
            i <= v@.len(),
            forall|j: int| 0 <= j < i ==> v@[j] != id,
        decreases v@.len() - i,
    {
        if v[i] == id {
            assert(v@[i as int] == id);
            return true;
        }
        i = i + 1;
    }
    false
}

/// The source column of an assignment.
pub fn source_label(mods: &Vec<ModifierKey>, a: &KeyAssignment) -> (r: String)
    ensures
        r@ == source_label_spec(mods@, *a),
{
    if chars_of(a.source_key.as_str()).len() == 0 {
        return String::from_str("\u{2014} not set \u{2014}");
    }
    if a.modifiers.len() == 0 {
        return a.source_key.clone();
    }
    let mut out: Vec<char> = Vec::new();
    let mut any = false;
    let mut k: usize = 0;
    while k < mods.len()
        invariant
            k <= mods@.len(),
            any == (held_modifier_names(mods@.take(k as int), a.modifiers@).len() > 0),
            out@ == join_with(held_modifier_names(mods@.take(k as int), a.modifiers@), " + "@),
        decreases mods@.len() - k,
    {
        proof {
            let t = mods@.take(k + 1);
            assert(t.drop_last() =~= mods@.take(k as int));
            assert(t.last() == mods@[k as int]);
        }
        if has_id(&a.modifiers, mods[k].id) {
            proof {
                let prev = held_modifier_names(mods@.take(k as int), a.modifiers@);
                let next = prev.push(mods@[k as int].name@);
                assert(next.drop_last() =~= prev);
            }
            if any {
                extend_str(&mut out, " + ");
            }
            extend_str(&mut out, mods[k].name.as_str());
            any = true;
        }
        k = k + 1;
    }
    proof {
        assert(mods@.take(mods@.len() as int) =~= mods@);
    }
    extend_str(&mut out, " + ");
    extend_str(&mut out, a.source_key.as_str());
    string_from_chars(out.as_slice())
}

/// A remap target as the editor shows it: every `+` spaced out as ` + `.
pub open spec fn spaced_plus(s: Seq<char>) -> Seq<char>
    decreases s.len(),
{
    if s.len() == 0 {
        seq![]
    } else {
        spaced_plus(s.drop_last()) + if s.last() == '+' {
            " + "@
        } else {
            seq![s.last()]
        }
    }
}

/// A remap target as the editor shows it.
pub fn remap_label(remap: &str) -> (r: String)
    ensures
        r@ == spaced_plus(remap@),
{
    let cs = chars_of(remap);
    let mut out: Vec<char> = Vec::new();
    let mut i: usize = 0;
    while i < cs.len()
        invariant
            i <= cs@.len(),
            cs@ == remap@,
            out@ == spaced_plus(cs@.take(i as int)),
        decreases cs@.len() - i,
    {
        proof {
            let t = cs@.take(i + 1);
            assert(t.drop_last() =~= cs@.take(i as int));
            assert(t.last() == cs@[i as int]);
        }
        if cs[i] == '+' {
            extend_str(&mut out, " + ");
        } else {
            out.push(cs[i]);
        }
        proof {
            assert(out@ =~= spaced_plus(cs@.take(i + 1)));
        }
        i = i + 1;
    }
    proof {
        assert(cs@.take(cs@.len() as int) =~= cs@);
    }
    string_from_chars(out.as_slice())
}

/// The name shown for a macro target: the first macro with the identifier,
/// `(missing)` when there is none.
pub open spec fn macro_target_name_spec(macros: Seq<Macro>, id: u128) -> Seq<char> {
    match macro_index(macros, id) {
        Some(i) => macros[i].name@,
        None => "(missing)"@,
    }
}

/// The name shown for a macro target.
pub fn macro_target_name(macros: &Vec<Macro>, id: u128) -> (r: String)
    ensures
        r@ == macro_target_name_spec(macros@, id),
{
    match find_macro(macros, id) {
        Some(i) => macros[i].name.clone(),
        None => String::from_str("(missing)"),
    }
}

/// The trigger column shows only for an assignment that runs an existing
/// Single macro.
pub open spec fn shows_trigger_spec(macros: Seq<Macro>, a: KeyAssignment) -> bool {
    match a.macro_id {
        Some(mid) => match macro_index(macros, mid) {
            Some(i) => macros[i].fire == FireMode::Single,
            None => false,
        },
        None => false,
    }
}

/// Whether the trigger column shows for an assignment.
pub fn shows_trigger(macros: &Vec<Macro>, a: &KeyAssignment) -> (r: bool)
    ensures
        r == shows_trigger_spec(macros@, *a),
{
    match a.macro_id {
        Some(mid) => match find_macro(macros, mid) {
            Some(i) => {
                proof {
                    lemma_macro_index_bounds(macros@, mid);
                }
                macros[i].fire == FireMode::Single
            },
            None => false,
        },
        None => false,
    }
}

// ── Top bar ───────────────────────────────────────────────────────────────────

/// The auto-switch indicator: the running profile when one runs with
/// auto-switch on, else whether auto-detection is on.
pub open spec fn auto_switch_label_spec(on: bool, running: Option<Seq<char>>) -> Seq<char> {
    if on {
        match running {
            Some(name) => "Running ["@ + name + "]"@,
            None => "Auto-detect: ON"@,
        }
    } else {
        "Auto-detect: OFF"@
    }
}

/// The auto-switch indicator.
pub fn auto_switch_label(on: bool, running: Option<&str>) -> (r: String)
    ensures
        r@ == auto_switch_label_spec(
            on,
            match running {
                Some(s) => Some(s@),
                None => None,
            },
        ),
{
    if !on {
        return String::from_str("Auto-detect: OFF");
    }
    match running {
        Some(name) => {
            let mut out: Vec<char> = Vec::new();
            extend_str(&mut out, "Running [");
            extend_str(&mut out, name);
            extend_str(&mut out, "]");
            string_from_chars(out.as_slice())
        },
        None => String::from_str("Auto-detect: ON"),
    }
}

/// The game link summary: a gamepad and the game's name, or that no game
/// is linked.
pub open spec fn game_link_summary_spec(link: Option<GameLink>) -> Seq<char> {
    match link {
        Some(g) => "\u{1F3AE} "@ + g.display_name@,
        None => "No game linked"@,
    }
}

/// The game link summary of the top bar.
pub fn game_link_summary(link: Option<&GameLink>) -> (r: String)
    ensures
        r@ == game_link_summary_spec(
            match link {
                Some(g) => Some(*g),
                None => None,
            },
        ),
{
    match link {
        Some(g) => {
            let mut out: Vec<char> = Vec::new();
            extend_str(&mut out, "\u{1F3AE} ");
            extend_str(&mut out, g.display_name.as_str());
            string_from_chars(out.as_slice())
        },
        None => String::from_str("No game linked"),
    }
}

// ── Game link dialog ──────────────────────────────────────────────────────────

/// A Steam id as typed: the trimmed text read as a `u32` (an optional `+`
/// and decimal digits, at most `u32::MAX`), else none.
pub open spec fn steam_id_spec(text: Seq<char>) -> Option<u32> {
    match parse_unsigned_spec(trim_spec(text), 10, u32::MAX as nat) {
        Some(v) => Some(v as u32),
        None => None,
    }
}

/// Reads a typed Steam id.
pub fn steam_id_from_text(text: &str) -> (r: Option<u32>)
    ensures
        r == steam_id_spec(text@),
{
    let cs = chars_of(text);
    let t = trim_chars(cs.as_slice());
    parse_unsigned(t.as_slice(), 10, u32::MAX)
}

} // verus!
