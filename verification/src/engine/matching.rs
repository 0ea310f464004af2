//! Which assignment, modifier or macro a key event selects.
use vstd::prelude::*;
use crate::config::{KeyAssignment, Macro, ModifierKey, Profile, TriggerMode};
use crate::constants::{QUICK_PRESS_MAX_MS, SHORT_HOLD_MAX_MS};

verus! {

/// Every modifier that the assignment needs is held.
pub open spec fn mods_held(mods: Seq<u128>, held: Set<u128>) -> bool {
    forall|i: int| 0 <= i < mods.len() ==> held.contains(#[trigger] mods[i])
}

/// A device filter admits the device (no filter admits every device).
pub open spec fn device_ok(filter: Option<String>, device: Seq<char>) -> bool {
    match filter {
        Some(d) => d@ == device,
        None => true,
    }
}

/// The assignment's key, modifiers and device filter fit the event.
pub open spec fn base_match(a: KeyAssignment, key: Seq<char>, held: Set<u128>, device: Seq<char>) -> bool {
    a.source_key@ == key && mods_held(a.modifiers@, held) && device_ok(a.source_device, device)
}

/// Fires on press: any remap, or a macro whose trigger mode is `Any`.
pub open spec fn immediate_match(a: KeyAssignment, key: Seq<char>, held: Set<u128>, device: Seq<char>) -> bool {
    base_match(a, key, held, device) && (a.remap_key is Some || a.trigger_mode == TriggerMode::Any)
}

/// A macro assignment that waits for the release (QuickPress or ShortHold).
pub open spec fn deferred_match(a: KeyAssignment, key: Seq<char>, held: Set<u128>, device: Seq<char>) -> bool {
    base_match(a, key, held, device) && a.macro_id is Some && (a.trigger_mode == TriggerMode::QuickPress
        || a.trigger_mode == TriggerMode::ShortHold)
}

/// A macro assignment whose trigger mode is `t`.
pub open spec fn timed_match(
    a: KeyAssignment,
    key: Seq<char>,
    held: Set<u128>,
    device: Seq<char>,
    t: TriggerMode,
) -> bool {
    base_match(a, key, held, device) && a.macro_id is Some && a.trigger_mode == t
}

/// How specific an assignment is: more modifiers first, then a device filter.
pub open spec fn rank(a: KeyAssignment) -> int {
    a.modifiers@.len() * 2 + if a.source_device is Some {
        1int
    } else {
        0int
    }
}

/// `i` is the last of the matching assignments with the highest rank (what
/// `Iterator::max_by_key` picks).
pub open spec fn last_best(s: Seq<KeyAssignment>, p: spec_fn(KeyAssignment) -> bool, i: int) -> bool {
    &&& 0 <= i < s.len()
    &&& p(s[i])
    &&& forall|j: int| 0 <= j < s.len() && p(#[trigger] s[j]) ==> rank(s[j]) <= rank(s[i])
    &&& forall|j: int| i < j < s.len() && p(#[trigger] s[j]) ==> rank(s[j]) < rank(s[i])
}

/// No assignment satisfies `p`.
pub open spec fn none_match(s: Seq<KeyAssignment>, p: spec_fn(KeyAssignment) -> bool) -> bool {
    forall|j: int| 0 <= j < s.len() ==> !p(#[trigger] s[j])
}

/// At most one position is the last best one.
pub proof fn lemma_last_best_unique(s: Seq<KeyAssignment>, p: spec_fn(KeyAssignment) -> bool, i: int, k: int)
    requires
        last_best(s, p, i),
        last_best(s, p, k),
    ensures
        i == k,
{
    if i < k {
        assert(rank(s[k]) < rank(s[i]));
        assert(rank(s[i]) <= rank(s[k]));
    }
    if k < i {
        assert(rank(s[i]) < rank(s[k]));
        assert(rank(s[k]) <= rank(s[i]));
    }
}

/// Whether `x` is in `v`.
pub fn contains_id(v: &[u128], x: u128) -> (r: bool)
    ensures
        r == v@.contains(x),
{
    let mut i: usize = 0;
    while i < v.len()
        invariant
            i <= v@.len(),
            forall|j: int| 0 <= j < i ==> v@[j] != x,
        decreases v@.len() - i,
    {
        if v[i] == x {
            return true;
        }
        i = i + 1;
    }
    false
}

/// Whether every identifier of `mods` is in `held`.
pub fn all_held(mods: &[u128], held: &[u128]) -> (r: bool)
    ensures
        r == mods_held(mods@, held@.to_set()),
{
    let mut i: usize = 0;
    while i < mods.len()
        invariant
            i <= mods@.len(),
            forall|j: int| 0 <= j < i ==> held@.to_set().contains(#[trigger] mods@[j]),
        decreases mods@.len() - i,
    {
        if !contains_id(held, mods[i]) {
            assert(!held@.to_set().contains(mods@[i as int]));
            return false;
        }
        i = i + 1;
    }
    true
}

/// Whether the device filter admits `device`.
pub fn device_filter_admits(filter: &Option<String>, device: &String) -> (r: bool)
    ensures
        r == device_ok(*filter, device@),
        filter is None ==> r,
        *filter matches Some(d) ==> (r <==> d@ == device@),
{
    match filter {
        Some(d) => *d == *device,
        None => true,
    }
}

fn base_match_exec(a: &KeyAssignment, key: &String, held: &[u128], device: &String) -> (r: bool)
    ensures
        r == base_match(*a, key@, held@.to_set(), device@),
{
    a.source_key == *key && all_held(a.modifiers.as_slice(), held) && device_filter_admits(&a.source_device, device)
}

/// Which assignments a search considers.
pub enum MatchKind {
    /// Remaps, and macros that fire on any press duration.
    Immediate,
    /// Macros whose trigger mode is the given one.
    Timed(TriggerMode),
}

/// The predicate that a `MatchKind` stands for.
pub open spec fn kind_pred(kind: MatchKind, key: Seq<char>, held: Set<u128>, device: Seq<char>) -> spec_fn(KeyAssignment) -> bool {
    match kind {
        MatchKind::Immediate => |a: KeyAssignment| immediate_match(a, key, held, device),
        MatchKind::Timed(t) => |a: KeyAssignment| timed_match(a, key, held, device, t),
    }
}

fn kind_match_exec(kind: &MatchKind, a: &KeyAssignment, key: &String, held: &[u128], device: &String) -> (r: bool)
    ensures
        r == (kind_pred(*kind, key@, held@.to_set(), device@))(*a),
{
    if !base_match_exec(a, key, held, device) {
        return false;
    }
    match kind {
        MatchKind::Immediate => a.remap_key.is_some() || a.trigger_mode == TriggerMode::Any,
        MatchKind::Timed(t) => a.macro_id.is_some() && a.trigger_mode == *t,
    }
}

/// The last of the best-ranked assignments of the given kind.
pub fn best_assignment(
    assignments: &Vec<KeyAssignment>,
    kind: MatchKind,
    key: &String,
    held: &[u128],
    device: &String,
) -> (r: Option<usize>)
    ensures
        r matches Some(i) ==> last_best(assignments@, kind_pred(kind, key@, held@.to_set(), device@), i as int),
        r is None ==> none_match(assignments@, kind_pred(kind, key@, held@.to_set(), device@)),
{
    let ghost p = kind_pred(kind, key@, held@.to_set(), device@);
    let mut best: Option<usize> = None;
    let mut j: usize = 0;
    while j < assignments.len()
        invariant
            p == kind_pred(kind, key@, held@.to_set(), device@),
            j <= assignments@.len(),
            best matches Some(b) ==> b < j && p(assignments@[b as int]) && (forall|k: int|
                0 <= k < j && p(#[trigger] assignments@[k]) ==> rank(assignments@[k]) <= rank(
                    assignments@[b as int],
                )) && (forall|k: int|
                b < k < j && p(#[trigger] assignments@[k]) ==> rank(assignments@[k]) < rank(
                    assignments@[b as int],
                )),
            best is None ==> forall|k: int| 0 <= k < j ==> !p(#[trigger] assignments@[k]),
        decreases assignments@.len() - j,
    {
        let a = &assignments[j];
        if kind_match_exec(&kind, a, key, held, device) {
            match best {
                None => {
                    best = Some(j);
                },
                Some(b) => {
                    let bl = assignments[b].modifiers.len();
                    let bd = assignments[b].source_device.is_some();
                    let al = a.modifiers.len();
                    let ad = a.source_device.is_some();
                    if al > bl || (al == bl && (ad || !bd)) {
                        best = Some(j);
                    }
                },
            }
        }
        j = j + 1;
    }
    best
}

/// The remap or any-press macro assignment that a key press fires at once.
pub fn find_assignment(profile: &Profile, key_name: &String, held_mods: &[u128], device_name: &String) -> (r: Option<usize>)
    ensures
        r matches Some(i) ==> last_best(
            profile.assignments@,
            |a: KeyAssignment| immediate_match(a, key_name@, held_mods@.to_set(), device_name@),
            i as int,
        ),
        r is None ==> none_match(
            profile.assignments@,
            |a: KeyAssignment| immediate_match(a, key_name@, held_mods@.to_set(), device_name@),
        ),
{
    best_assignment(&profile.assignments, MatchKind::Immediate, key_name, held_mods, device_name)
}

/// Whether a QuickPress or ShortHold macro assignment matches this key press.
pub fn has_deferred_trigger(profile: &Profile, key_name: &String, held_mods: &[u128], device_name: &String) -> (r: bool)
    ensures
        r == exists|j: int|
            0 <= j < profile.assignments@.len() && deferred_match(
                #[trigger] profile.assignments@[j],
                key_name@,
                held_mods@.to_set(),
                device_name@,
            ),
{
    let mut j: usize = 0;
    while j < profile.assignments.len()
        invariant
            j <= profile.assignments@.len(),
            forall|k: int|
                0 <= k < j ==> !deferred_match(
                    #[trigger] profile.assignments@[k],
                    key_name@,
                    held_mods@.to_set(),
                    device_name@,
                ),
        decreases profile.assignments@.len() - j,
    {
        let a = &profile.assignments[j];
        if base_match_exec(a, key_name, held_mods, device_name) && a.macro_id.is_some() && (a.trigger_mode
            == TriggerMode::QuickPress || a.trigger_mode == TriggerMode::ShortHold) {
            return true;
        }
        j = j + 1;
    }
    false
}

/// The trigger mode that a hold of this many milliseconds selects: shorter
/// than QUICK_PRESS_MAX_MS is QuickPress, then up to SHORT_HOLD_MAX_MS is
/// ShortHold, longer selects none.
pub open spec fn hold_trigger(elapsed_ms: u64) -> Option<TriggerMode> {
    if elapsed_ms < QUICK_PRESS_MAX_MS {
        Some(TriggerMode::QuickPress)
    } else if elapsed_ms < SHORT_HOLD_MAX_MS {
        Some(TriggerMode::ShortHold)
    } else {
        None
    }
}

/// Classifies a hold duration.
pub fn classify_hold(elapsed_ms: u64) -> (r: Option<TriggerMode>)
    ensures
        r == hold_trigger(elapsed_ms),
{
    if elapsed_ms < QUICK_PRESS_MAX_MS {
        Some(TriggerMode::QuickPress)
    } else if elapsed_ms < SHORT_HOLD_MAX_MS {
        Some(TriggerMode::ShortHold)
    } else {
        None
    }
}

/// The deferred macro assignment whose trigger mode fits the hold duration.
pub fn find_timed_assignment(
    profile: &Profile,
    key_name: &String,
    held_mods: &[u128],
    device_name: &String,
    elapsed_ms: u64,
) -> (r: Option<usize>)
    ensures
        hold_trigger(elapsed_ms) is None ==> r is None,
        hold_trigger(elapsed_ms) matches Some(t) ==> (r matches Some(i) ==> last_best(
            profile.assignments@,
            |a: KeyAssignment| timed_match(a, key_name@, held_mods@.to_set(), device_name@, t),
            i as int,
        )) && (r is None ==> none_match(
            profile.assignments@,
            |a: KeyAssignment| timed_match(a, key_name@, held_mods@.to_set(), device_name@, t),
        )),
{
    match classify_hold(elapsed_ms) {
        None => None,
        Some(t) => best_assignment(&profile.assignments, MatchKind::Timed(t), key_name, held_mods, device_name),
    }
}

/// The position of the first modifier that `key` on `device` acts as.
pub open spec fn first_mod(mods: Seq<ModifierKey>, key: Seq<char>, device: Seq<char>) -> Option<int>
    decreases mods.len(),
{
    if mods.len() == 0 {
        None
    } else if mods[0].key@ == key && device_ok(mods[0].source_device, device) {
        Some(0)
    } else {
        match first_mod(mods.drop_first(), key, device) {
            Some(i) => Some(i + 1),
            None => None,
        }
    }
}

/// The identifier of the modifier that `key` on `device` acts as, if any.
pub open spec fn mod_for(mods: Seq<ModifierKey>, key: Seq<char>, device: Seq<char>) -> Option<u128> {
    match first_mod(mods, key, device) {
        Some(i) => Some(mods[i].id),
        None => None,
    }
}

proof fn lemma_first_mod(mods: Seq<ModifierKey>, key: Seq<char>, device: Seq<char>, i: int)
    requires
        0 <= i < mods.len(),
        mods[i].key@ == key && device_ok(mods[i].source_device, device),
        forall|j: int| 0 <= j < i ==> !(mods[j].key@ == key && device_ok(mods[j].source_device, device)),
    ensures
        first_mod(mods, key, device) == Some(i),
    decreases i,
{
    if i > 0 {
        assert forall|j: int| 0 <= j < i - 1 implies !(mods.drop_first()[j].key@ == key && device_ok(
            mods.drop_first()[j].source_device,
            device,
        )) by {
            assert(mods.drop_first()[j] == mods[j + 1]);
        }
        lemma_first_mod(mods.drop_first(), key, device, i - 1);
    }
}

proof fn lemma_first_mod_none(mods: Seq<ModifierKey>, key: Seq<char>, device: Seq<char>)
    requires
        forall|j: int| 0 <= j < mods.len() ==> !(mods[j].key@ == key && device_ok(mods[j].source_device, device)),
    ensures
        first_mod(mods, key, device) is None,
    decreases mods.len(),
{
    if mods.len() > 0 {
        assert forall|j: int| 0 <= j < mods.len() - 1 implies !(mods.drop_first()[j].key@ == key
            && device_ok(mods.drop_first()[j].source_device, device)) by {
            assert(mods.drop_first()[j] == mods[j + 1]);
        }
        lemma_first_mod_none(mods.drop_first(), key, device);
    }
}

proof fn lemma_first_mod_is(mods: Seq<ModifierKey>, key: Seq<char>, device: Seq<char>)
    ensures
        first_mod(mods, key, device) matches Some(k) ==> 0 <= k < mods.len() && mods[k].key@ == key && device_ok(
            mods[k].source_device,
            device,
        ),
    decreases mods.len(),
{
    if mods.len() > 0 && !(mods[0].key@ == key && device_ok(mods[0].source_device, device)) {
        lemma_first_mod_is(mods.drop_first(), key, device);
        if let Some(k) = first_mod(mods.drop_first(), key, device) {
            assert(mods.drop_first()[k] == mods[k + 1]);
        }
    }
}

/// A device filter is obeyed: the assignment a key event fires (at once or
/// after a timed hold) and the modifier the key stands for are for that key,
/// and either have no device filter or name the event's device; a binding
/// filtered to another device never fires, and the key passes through.
pub proof fn law_device_filter_obeyed(p: Profile, key: Seq<char>, held: Set<u128>, device: Seq<char>, i: int, t: TriggerMode)
    ensures
        last_best(p.assignments@, |a: KeyAssignment| immediate_match(a, key, held, device), i) ==> ({
            &&& p.assignments@[i].source_key@ == key
            &&& (p.assignments@[i].source_device matches Some(d) ==> d@ == device)
        }),
        last_best(p.assignments@, |a: KeyAssignment| timed_match(a, key, held, device, t), i) ==> ({
            &&& p.assignments@[i].source_key@ == key
            &&& (p.assignments@[i].source_device matches Some(d) ==> d@ == device)
        }),
        0 <= i < p.assignments@.len() && (p.assignments@[i].source_device matches Some(d) && d@ != device) ==> !immediate_match(
            p.assignments@[i],
            key,
            held,
            device,
        ) && !deferred_match(p.assignments@[i], key, held, device) && !timed_match(p.assignments@[i], key, held, device, t),
        first_mod(p.modifiers@, key, device) matches Some(k) ==> ({
            &&& 0 <= k < p.modifiers@.len()
            &&& p.modifiers@[k].key@ == key
            &&& (p.modifiers@[k].source_device matches Some(d) ==> d@ == device)
        }),
{
    lemma_first_mod_is(p.modifiers@, key, device);
}

/// Finds the modifier that a key press or release on a device stands for.
pub fn find_mod(mods: &Vec<ModifierKey>, key_name: &String, device_name: &String) -> (r: Option<u128>)
    ensures
        r == mod_for(mods@, key_name@, device_name@),
{
    let mut i: usize = 0;
    while i < mods.len()
        invariant
            i <= mods@.len(),
            forall|j: int|
                0 <= j < i ==> !(mods@[j].key@ == key_name@ && device_ok(mods@[j].source_device, device_name@)),
        decreases mods@.len() - i,
    {
        if mods[i].key == *key_name && device_filter_admits(&mods[i].source_device, device_name) {
            proof {
                lemma_first_mod(mods@, key_name@, device_name@, i as int);
            }
            return Some(mods[i].id);
        }
        i = i + 1;
    }
    proof {
        lemma_first_mod_none(mods@, key_name@, device_name@);
    }
    None
}

/// The position of the first macro with this identifier.
pub open spec fn macro_index(macros: Seq<Macro>, id: u128) -> Option<int>
    decreases macros.len(),
{
    if macros.len() == 0 {
        None
    } else if macros[0].id == id {
        Some(0)
    } else {
        match macro_index(macros.drop_first(), id) {
            Some(i) => Some(i + 1),
            None => None,
        }
    }
}

proof fn lemma_macro_index(macros: Seq<Macro>, id: u128, i: int)
    requires
        0 <= i < macros.len(),
        macros[i].id == id,
        forall|j: int| 0 <= j < i ==> macros[j].id != id,
    ensures
        macro_index(macros, id) == Some(i),
    decreases i,
{
    if i > 0 {
        assert forall|j: int| 0 <= j < i - 1 implies macros.drop_first()[j].id != id by {
            assert(macros.drop_first()[j] == macros[j + 1]);
        }
        lemma_macro_index(macros.drop_first(), id, i - 1);
    }
}

proof fn lemma_macro_index_none(macros: Seq<Macro>, id: u128)
    requires
        forall|j: int| 0 <= j < macros.len() ==> macros[j].id != id,
    ensures
        macro_index(macros, id) is None,
    decreases macros.len(),
{
    if macros.len() > 0 {
        assert forall|j: int| 0 <= j < macros.len() - 1 implies macros.drop_first()[j].id != id by {
            assert(macros.drop_first()[j] == macros[j + 1]);
        }
        lemma_macro_index_none(macros.drop_first(), id);
    }
}

/// `macro_index` lies within the list and names a macro with that identifier.
pub proof fn lemma_macro_index_bounds(macros: Seq<Macro>, id: u128)
    ensures
        macro_index(macros, id) matches Some(i) ==> 0 <= i < macros.len() && macros[i].id == id,
    decreases macros.len(),
{
    if macros.len() > 0 && macros[0].id != id {
        lemma_macro_index_bounds(macros.drop_first(), id);
    }
}

/// The position of the first macro with this identifier.
pub fn find_macro(macros: &Vec<Macro>, id: u128) -> (r: Option<usize>)
    ensures
        r matches Some(i) ==> macro_index(macros@, id) == Some(i as int) && i < macros@.len(),
        r is None ==> macro_index(macros@, id) is None,
{
    let mut i: usize = 0;
    while i < macros.len()
        invariant
            i <= macros@.len(),
            forall|j: int| 0 <= j < i ==> macros@[j].id != id,
        decreases macros@.len() - i,
    {
        if macros[i].id == id {
            proof {
                lemma_macro_index(macros@, id, i as int);
            }
            return Some(i);
        }
        i = i + 1;
    }
    proof {
        lemma_macro_index_none(macros@, id);
    }
    None
}

} // verus!
