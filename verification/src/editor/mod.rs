//! The profile editor's rules, apart from its windows: what a learned key
//! does to the profile, which assignments are refused, and how a recording
//! becomes macro steps.
use vstd::prelude::*;
use crate::config::{
    new_id, strings_view, KeyAssignment, ModifierKey, Profile, SimpleStep, StepMode, TriggerMode,
};
use crate::constants::ENGINE_LOG_CAPACITY;
use crate::engine::detect::DetectEvent;
use crate::text::{
    chars_eq, chars_of, extend_str, parse_unsigned, parse_unsigned_spec, split_chars, split_on, string_from_chars,
    trim_chars, trim_spec,
};

pub mod edits;
pub mod labels;
pub mod recording;
pub mod state;

use recording::{buf_to_advanced_steps, buf_to_simple_steps, join_plus, RecordMsg, RecordedKey};

verus! {

// ── Trigger mode labels ───────────────────────────────────────────────────────

/// The short label of a trigger mode.
pub open spec fn trigger_label(mode: TriggerMode) -> Seq<char> {
    match mode {
        TriggerMode::Any => "Any"@,
        TriggerMode::QuickPress => "Short"@,
        TriggerMode::ShortHold => "Long"@,
    }
}

/// The tooltip of a trigger mode.
pub open spec fn trigger_tooltip(mode: TriggerMode) -> Seq<char> {
    match mode {
        TriggerMode::Any => "Fire on any press duration"@,
        TriggerMode::QuickPress => "Short press: < 250 ms"@,
        TriggerMode::ShortHold => "Long press: 250\u{2013}500 ms"@,
    }
}

/// The short label of a trigger mode.
pub fn trigger_mode_label(mode: &TriggerMode) -> (r: &'static str)
    ensures
        r@ == trigger_label(*mode),
{
    match mode {
        TriggerMode::Any => "Any",
        TriggerMode::QuickPress => "Short",
        TriggerMode::ShortHold => "Long",
    }
}

/// The tooltip of a trigger mode.
pub fn trigger_mode_tooltip(mode: &TriggerMode) -> (r: &'static str)
    ensures
        r@ == trigger_tooltip(*mode),
{
    match mode {
        TriggerMode::Any => "Fire on any press duration",
        TriggerMode::QuickPress => "Short press: < 250 ms",
        TriggerMode::ShortHold => "Long press: 250\u{2013}500 ms",
    }
}

// ── Assignment guards ─────────────────────────────────────────────────────────

/// The view of an optional string.
pub open spec fn opt_view(o: Option<String>) -> Option<Seq<char>> {
    match o {
        Some(s) => Some(s@),
        None => None,
    }
}

/// The view of an optional string slice.
pub open spec fn opt_str_view(o: Option<&str>) -> Option<Seq<char>> {
    match o {
        Some(s) => Some(s@),
        None => None,
    }
}

/// An assignment has this source key, the same modifiers (in any order),
/// this device filter and this trigger mode.
pub open spec fn same_assignment(
    a: KeyAssignment,
    key: Seq<char>,
    mods: Seq<u128>,
    device: Option<Seq<char>>,
    mode: TriggerMode,
) -> bool {
    &&& a.source_key@ == key
    &&& a.modifiers@.to_multiset() == mods.to_multiset()
    &&& opt_view(a.source_device) == device
    &&& a.trigger_mode == mode
}

/// Some assignment other than number `skip` is the same.
pub open spec fn duplicate_in(
    p: Profile,
    key: Seq<char>,
    mods: Seq<u128>,
    device: Option<Seq<char>>,
    mode: TriggerMode,
    skip: usize,
) -> bool {
    exists|i: int|
        0 <= i < p.assignments@.len() && i != skip && same_assignment(
            #[trigger] p.assignments@[i],
            key,
            mods,
            device,
            mode,
        )
}

/// The key is in the profile's blocked list.
pub open spec fn blocked_in(p: Profile, key: Seq<char>) -> bool {
    strings_view(p.blocked_keys@).contains(key)
}

/// Why a candidate source key is refused, if it is: blocked keys first, then
/// duplicates.
pub open spec fn guard_spec(
    p: Option<Profile>,
    key: Seq<char>,
    mods: Seq<u128>,
    device: Option<Seq<char>>,
    mode: TriggerMode,
    skip: usize,
) -> Option<Seq<char>> {
    match p {
        None => None,
        Some(p) => if blocked_in(p, key) {
            Some(key + " is in the blocked list and cannot be assigned."@)
        } else if duplicate_in(p, key, mods, device, mode, skip) {
            Some(key + " is already assigned with the same modifiers and trigger mode."@)
        } else {
            None
        },
    }
}

fn count_of(v: &[u128], x: u128) -> (c: usize)
    ensures
        c == v@.to_multiset().count(x),
{
    let mut c: usize = 0;
    let mut i: usize = 0;
    proof {
        v@.take(0).to_multiset_ensures();
        assert(v@.take(0) =~= Seq::<u128>::empty());
    }
    while i < v.len()
        invariant
            i <= v@.len(),
            c == v@.take(i as int).to_multiset().count(x),
            c <= i,
        decreases v@.len() - i,
    {
        proof {
            let t = v@.take(i as int);
            t.to_multiset_ensures();
            assert(v@.take(i + 1) =~= t.push(v@[i as int]));
        }
        if v[i] == x {
            c = c + 1;
        }
        i = i + 1;
    }
    proof {
        assert(v@.take(v@.len() as int) =~= v@);
    }
    c
}

/// Every element of `a` occurs as often in `b`.
fn counts_agree(a: &[u128], b: &[u128]) -> (r: bool)
    ensures
        r == forall|x: u128| a@.contains(x) ==> a@.to_multiset().count(x) == b@.to_multiset().count(x),
{
    let mut i: usize = 0;
    while i < a.len()
        invariant
            i <= a@.len(),
            forall|j: int| 0 <= j < i ==> a@.to_multiset().count(#[trigger] a@[j]) == b@.to_multiset().count(a@[j]),
        decreases a@.len() - i,
    {
        if count_of(a, a[i]) != count_of(b, a[i]) {
            assert(a@.contains(a@[i as int]));
            return false;
        }
        i = i + 1;
    }
    true
}

/// Two modifier lists hold the same identifiers, counted with multiplicity.
fn same_modifiers(a: &[u128], b: &[u128]) -> (r: bool)
    ensures
        r == (a@.to_multiset() == b@.to_multiset()),
{
    proof {
        a@.to_multiset_ensures();
        b@.to_multiset_ensures();
    }
    let ab = counts_agree(a, b);
    let ba = counts_agree(b, a);
    if ab && ba {
        assert(a@.to_multiset() =~= b@.to_multiset()) by {
            assert forall|x: u128| a@.to_multiset().count(x) == b@.to_multiset().count(x) by {
                if !a@.contains(x) && !b@.contains(x) {
                } else if a@.contains(x) {
                } else {
                }
            }
        }
        true
    } else {
        proof {
            if a@.to_multiset() == b@.to_multiset() {
                assert forall|x: u128| a@.contains(x) implies a@.to_multiset().count(x) == b@.to_multiset().count(x) by {}
            }
        }
        false
    }
}

fn same_opt_str(a: &Option<String>, b: Option<&str>) -> (r: bool)
    ensures
        r == (opt_view(*a) == opt_str_view(b)),
{
    match (a, b) {
        (Some(x), Some(y)) => {
            let xc = chars_of(x.as_str());
            let yc = chars_of(y);
            chars_eq(xc.as_slice(), yc.as_slice())
        },
        (None, None) => true,
        _ => false,
    }
}

fn same_str(a: &String, b: &str) -> (r: bool)
    ensures
        r == (a@ == b@),
{
    let ac = chars_of(a.as_str());
    let bc = chars_of(b);
    chars_eq(ac.as_slice(), bc.as_slice())
}

/// Whether `key` is in the profile's blocked list.
pub fn is_blocked(profile: Option<&Profile>, key: &str) -> (r: bool)
    ensures
        r == match profile {
            Some(p) => blocked_in(*p, key@),
            None => false,
        },
{
    let p = match profile {
        None => {
            return false;
        },
        Some(p) => p,
    };
    let ghost bv = strings_view(p.blocked_keys@);
    let mut i: usize = 0;
    while i < p.blocked_keys.len()
        invariant
            i <= p.blocked_keys@.len(),
            profile == Some(p),
            bv == strings_view(p.blocked_keys@),
            forall|j: int| 0 <= j < i ==> bv[j] != key@,
        decreases p.blocked_keys@.len() - i,
    {
        if same_str(&p.blocked_keys[i], key) {
            assert(bv[i as int] == key@);
            assert(bv.contains(key@));
            assert(blocked_in(*p, key@));
            return true;
        }
        i = i + 1;
    }
    false
}

/// Whether `source_key` + `modifiers` + `source_device` + `trigger_mode`
/// already exists in the profile, apart from assignment number `skip_idx`
/// (`usize::MAX` when adding).
pub fn is_duplicate_assignment(
    profile: Option<&Profile>,
    source_key: &str,
    modifiers: &[u128],
    source_device: Option<&str>,
    trigger_mode: &TriggerMode,
    skip_idx: usize,
) -> (r: bool)
    ensures
        r == match profile {
            Some(p) => duplicate_in(*p, source_key@, modifiers@, opt_str_view(source_device), *trigger_mode, skip_idx),
            None => false,
        },
{
    let p = match profile {
        None => {
            return false;
        },
        Some(p) => p,
    };
    let mut i: usize = 0;
    while i < p.assignments.len()
        invariant
            i <= p.assignments@.len(),
            profile == Some(p),
            forall|j: int|
                0 <= j < i && j != skip_idx ==> !same_assignment(
                    #[trigger] p.assignments@[j],
                    source_key@,
                    modifiers@,
                    opt_str_view(source_device),
                    *trigger_mode,
                ),
        decreases p.assignments@.len() - i,
    {
        let a = &p.assignments[i];
        if i != skip_idx && same_str(&a.source_key, source_key) && same_modifiers(a.modifiers.as_slice(), modifiers)
            && same_opt_str(&a.source_device, source_device) && a.trigger_mode == *trigger_mode {
            assert(same_assignment(
                p.assignments@[i as int],
                source_key@,
                modifiers@,
                opt_str_view(source_device),
                *trigger_mode,
            ));
            assert(duplicate_in(*p, source_key@, modifiers@, opt_str_view(source_device), *trigger_mode, skip_idx));
            return true;
        }
        i = i + 1;
    }
    false
}

/// Checks the blocked and duplicate guards for a candidate source key: the
/// message to show if it is refused.
pub fn assignment_guard(
    profile: Option<&Profile>,
    key: &str,
    modifiers: &[u128],
    source_device: Option<&str>,
    trigger_mode: &TriggerMode,
    skip_idx: usize,
) -> (r: Option<String>)
    ensures
        opt_view(r) == guard_spec(
            match profile {
                Some(p) => Some(*p),
                None => None,
            },
            key@,
            modifiers@,
            opt_str_view(source_device),
            *trigger_mode,
            skip_idx,
        ),
{
    if is_blocked(profile, key) {
        let mut out: Vec<char> = Vec::new();
        extend_str(&mut out, key);
        extend_str(&mut out, " is in the blocked list and cannot be assigned.");
        return Some(string_from_chars(out.as_slice()));
    }
    if is_duplicate_assignment(profile, key, modifiers, source_device, trigger_mode, skip_idx) {
        let mut out: Vec<char> = Vec::new();
        extend_str(&mut out, key);
        extend_str(&mut out, " is already assigned with the same modifiers and trigger mode.");
        return Some(string_from_chars(out.as_slice()));
    }
    None
}

// ── A learned key ─────────────────────────────────────────────────────────────

/// What a learned key is for.
#[derive(Clone, Copy, Debug, PartialEq, Eq, Structural)]
pub enum LearnTarget {
    NewModifier,
    NewMacroStep,
    NewBlockedKey,
    AssignmentSource(usize),
    AssignmentRemap(usize),
}

/// A learned compound key `MOD1+MOD2+KEY`: the key itself (the last piece)
/// and the held modifier names before it.
pub open spec fn learned_parts(key: Seq<char>) -> (Seq<char>, Seq<Seq<char>>) {
    let parts = split_on(key, '+');
    (parts.last(), parts.drop_last())
}

/// The identifiers of the modifiers whose key is among `held`, in the
/// profile's order.
pub open spec fn modifier_ids(mods: Seq<ModifierKey>, held: Seq<Seq<char>>) -> Seq<u128>
    decreases mods.len(),
{
    if mods.len() == 0 {
        seq![]
    } else if held.contains(mods.last().key@) {
        modifier_ids(mods.drop_last(), held).push(mods.last().id)
    } else {
        modifier_ids(mods.drop_last(), held)
    }
}

/// Splits a learned compound key into the key and its modifier names.
pub fn split_learned(key: &str) -> (r: (String, Vec<Vec<char>>))
    ensures
        r.0@ == learned_parts(key@).0,
        r.1@.map_values(|c: Vec<char>| c@) == learned_parts(key@).1,
{
    let cs = chars_of(key);
    let mut parts = split_chars(cs.as_slice(), '+');
    let ghost sp = split_on(key@, '+');
    assert(sp.len() >= 1);
    let ghost before = parts@;
    let last = parts.pop().unwrap();
    proof {
        assert(parts@ == before.drop_last());
        assert forall|k: int| 0 <= k < parts@.len() implies #[trigger] parts@[k]@ == sp.drop_last()[k] by {
            assert(parts@[k] == before[k]);
            assert(before[k]@ == sp[k]);
        }
        assert(parts@.map_values(|c: Vec<char>| c@) =~= sp.drop_last());
    }
    (string_from_chars(last.as_slice()), parts)
}

/// No piece holds a `'+'`.
pub open spec fn plus_free(parts: Seq<Seq<char>>) -> bool {
    forall|i: int, j: int| 0 <= i < parts.len() && 0 <= j < parts[i].len() ==> #[trigger] parts[i][j] != '+'
}

proof fn lemma_join_front(x: Seq<char>, rest: Seq<Seq<char>>)
    requires
        rest.len() >= 1,
    ensures
        join_plus(seq![x] + rest) == x + seq!['+'] + join_plus(rest),
    decreases rest.len(),
{
    let all = seq![x] + rest;
    if rest.len() == 1 {
        assert(all.drop_last() =~= seq![x]);
        assert(join_plus(seq![x]) == x);
        assert(all.last() == rest[0]);
        assert(join_plus(rest) == rest[0]);
        assert(join_plus(all) =~= x + seq!['+'] + join_plus(rest));
    } else {
        assert(all.drop_last() =~= seq![x] + rest.drop_last());
        lemma_join_front(x, rest.drop_last());
        assert(join_plus(all) =~= x + seq!['+'] + join_plus(rest));
    }
}

proof fn lemma_split_join(parts: Seq<Seq<char>>)
    requires
        parts.len() >= 1,
        plus_free(parts),
    ensures
        split_on(join_plus(parts), '+') == parts,
    decreases parts.len(),
{
    let p0 = parts[0];
    assert forall|j: int| 0 <= j < p0.len() implies p0[j] != '+' by {
        assert(parts[0][j] != '+');
    }
    if parts.len() == 1 {
        crate::text::lemma_first_index_bounds(p0, '+');
        assert(split_on(p0, '+') =~= seq![p0]);
        assert(split_on(join_plus(parts), '+') =~= parts);
    } else {
        let rest = parts.drop_first();
        assert(parts =~= seq![p0] + rest);
        lemma_join_front(p0, rest);
        assert forall|i: int, j: int| 0 <= i < rest.len() && 0 <= j < rest[i].len() implies #[trigger] rest[i][j]
            != '+' by {
            assert(rest[i] == parts[i + 1]);
        }
        lemma_split_join(rest);
        let s = p0 + seq!['+'] + join_plus(rest);
        assert(s[p0.len() as int] == '+');
        crate::text::lemma_first_index_is(s, '+', p0.len() as int);
        assert(s.take(p0.len() as int) =~= p0);
        assert(s.skip(p0.len() as int + 1) =~= join_plus(rest));
        assert(split_on(s, '+') =~= seq![p0] + split_on(join_plus(rest), '+'));
    }
}

/// A key learned with modifiers held (their names joined with `'+'` before
/// the key's) splits back into the key and the held names, in order, when no
/// name holds a `'+'`.
pub proof fn law_learned_key_splits(held: Seq<Seq<char>>, name: Seq<char>)
    requires
        plus_free(held.push(name)),
    ensures
        learned_parts(join_plus(held.push(name))) == (name, held),
{
    lemma_split_join(held.push(name));
    assert(held.push(name).drop_last() =~= held);
}

} // verus!
