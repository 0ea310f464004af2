//! The edits the editor's panels make to a profile: removing a modifier or a
//! macro without leaving references to it, retargeting an assignment,
//! reordering steps, auto-detect fragments, the game link, and creating
//! profiles in name order.
use vstd::prelude::*;
use crate::config::{
    default_blocked_key_names, default_blocked_keys, new_id, strings_view, FireMode, GameLink, KeyAssignment, LoopEvent,
    Macro, Profile, StepMode, TriggerMode,
};
use crate::text::{chars_eq, chars_of, string_from_chars, trim_chars, trim_spec};

verus! {

// ── Modifiers ─────────────────────────────────────────────────────────────────

/// The identifiers other than `id`, in order.
pub open spec fn without_id(s: Seq<u128>, id: u128) -> Seq<u128>
    decreases s.len(),
{
    if s.len() == 0 {
        seq![]
    } else if s.last() == id {
        without_id(s.drop_last(), id)
    } else {
        without_id(s.drop_last(), id).push(s.last())
    }
}

proof fn lemma_without_id(s: Seq<u128>, id: u128)
    ensures
        !without_id(s, id).contains(id),
    decreases s.len(),
{
    if s.len() > 0 {
        lemma_without_id(s.drop_last(), id);
        let r = without_id(s.drop_last(), id);
        if s.last() != id {
            assert forall|k: int| 0 <= k < r.push(s.last()).len() implies r.push(s.last())[k] != id by {
                if k < r.len() {
                    assert(r.push(s.last())[k] == r[k]);
                }
            }
        }
    }
}

fn remove_id(v: &Vec<u128>, id: u128) -> (r: Vec<u128>)
    ensures
        r@ == without_id(v@, id),
{
    let mut r: Vec<u128> = Vec::new();
    let mut k: usize = 0;
    while k < v.len()
        invariant
            k <= v@.len(),
            r@ == without_id(v@.take(k as int), id),
        decreases v@.len() - k,
    {
        proof {
            let t = v@.take(k + 1);
            assert(t.drop_last() =~= v@.take(k as int));
        }
        if v[k] != id {
            r.push(v[k]);
        }
        k = k + 1;
    }
    proof {
        assert(v@.take(v@.len() as int) =~= v@);
    }
    r
}

/// `q` is `p` with another modifier list and other assignments.
pub open spec fn mods_and_assignments_changed(p: Profile, q: Profile) -> bool {
    q == (Profile { modifiers: q.modifiers, assignments: q.assignments, ..p })
}

/// Removes modifier `i`, and its identifier from every assignment.
pub fn delete_modifier(p: &mut Profile, i: usize)
    requires
        i < old(p).modifiers@.len(),
    ensures
        mods_and_assignments_changed(*old(p), *final(p)),
        final(p).modifiers@ == old(p).modifiers@.remove(i as int),
        final(p).assignments@.len() == old(p).assignments@.len(),
        forall|j: int|
            0 <= j < old(p).assignments@.len() ==> {
                let a = old(p).assignments@[j];
                let b = #[trigger] final(p).assignments@[j];
                &&& b == (KeyAssignment { modifiers: b.modifiers, ..a })
                &&& b.modifiers@ == without_id(a.modifiers@, old(p).modifiers@[i as int].id)
            },
{
    let removed = p.modifiers.remove(i);
    let id = removed.id;
    let mut assignments: Vec<KeyAssignment> = Vec::new();
    std::mem::swap(&mut assignments, &mut p.assignments);
    let ghost before = assignments@;
    let mut out: Vec<KeyAssignment> = Vec::new();
    let mut k: usize = 0;
    let n = assignments.len();
    while k < n
        invariant
            n == before.len(),
            k <= n,
            assignments@ == before.skip(k as int),
            out@.len() == k,
            forall|j: int|
                0 <= j < k ==> {
                    let a = before[j];
                    let b = #[trigger] out@[j];
                    &&& b == (KeyAssignment { modifiers: b.modifiers, ..a })
                    &&& b.modifiers@ == without_id(a.modifiers@, id)
                },
        decreases n - k,
    {
        let mut a = assignments.remove(0);
        proof {
            assert(assignments@ =~= before.skip(k + 1));
        }
        let kept = remove_id(&a.modifiers, id);
        a.modifiers = kept;
        out.push(a);
        k = k + 1;
    }
    p.assignments = out;
}

/// After a modifier is removed, no assignment refers to it.
pub proof fn law_deleted_modifier_unreferenced(old_p: Profile, new_p: Profile, i: int)
    requires
        0 <= i < old_p.modifiers@.len(),
        new_p.assignments@.len() == old_p.assignments@.len(),
        forall|j: int|
            0 <= j < old_p.assignments@.len() ==> (#[trigger] new_p.assignments@[j]).modifiers@ == without_id(
                old_p.assignments@[j].modifiers@,
                old_p.modifiers@[i].id,
            ),
    ensures
        forall|j: int|
            0 <= j < new_p.assignments@.len() ==> !(#[trigger] new_p.assignments@[j]).modifiers@.contains(
                old_p.modifiers@[i].id,
            ),
{
    assert forall|j: int| 0 <= j < new_p.assignments@.len() implies !(#[trigger] new_p.assignments@[j]).modifiers@.contains(
        old_p.modifiers@[i].id,
    ) by {
        lemma_without_id(old_p.assignments@[j].modifiers@, old_p.modifiers@[i].id);
    }
}

// ── Macros ────────────────────────────────────────────────────────────────────

/// `q` is `p` with other macros and other assignments.
pub open spec fn macros_and_assignments_changed(p: Profile, q: Profile) -> bool {
    q == (Profile { macros: q.macros, assignments: q.assignments, ..p })
}

/// The assignment with its macro target dropped if it is `id`.
pub open spec fn unlink_macro(a: KeyAssignment, id: u128) -> KeyAssignment {
    if a.macro_id == Some(id) {
        KeyAssignment { macro_id: None, ..a }
    } else {
        a
    }
}

/// Removes macro `i`; assignments that ran it no longer run anything.
pub fn delete_macro(p: &mut Profile, i: usize)
    requires
        i < old(p).macros@.len(),
    ensures
        macros_and_assignments_changed(*old(p), *final(p)),
        final(p).macros@ == old(p).macros@.remove(i as int),
        final(p).assignments@ == old(p).assignments@.map_values(
            |a: KeyAssignment| unlink_macro(a, old(p).macros@[i as int].id),
        ),
{
    let id = p.macros[i].id;
    let mut assignments: Vec<KeyAssignment> = Vec::new();
    std::mem::swap(&mut assignments, &mut p.assignments);
    let ghost before = assignments@;
    let mut out: Vec<KeyAssignment> = Vec::new();
    let mut k: usize = 0;
    let n = assignments.len();
    while k < n
        invariant
            n == before.len(),
            k <= n,
            assignments@ == before.skip(k as int),
            out@ == before.take(k as int).map_values(|a: KeyAssignment| unlink_macro(a, id)),
        decreases n - k,
    {
        let mut a = assignments.remove(0);
        proof {
            assert(assignments@ =~= before.skip(k + 1));
        }
        let ghost a0 = a;
        if a.macro_id == Some(id) {
            a.macro_id = None;
        }
        out.push(a);
        proof {
            assert(before.take(k + 1).map_values(|a: KeyAssignment| unlink_macro(a, id)) =~= before.take(
                k as int,
            ).map_values(|a: KeyAssignment| unlink_macro(a, id)).push(unlink_macro(a0, id)));
        }
        k = k + 1;
    }
    proof {
        assert(before.take(n as int) =~= before);
    }
    p.assignments = out;
    p.macros.remove(i);
}

/// The selected macro after macro `i` is removed: none if it was the one
/// removed, one lower if it came after it.
pub fn selection_after_delete(sel: Option<usize>, i: usize) -> (r: Option<usize>)
    ensures
        r == match sel {
            Some(s) => if s == i {
                None
            } else if s > i {
                Some((s - 1) as usize)
            } else {
                Some(s)
            },
            None => None,
        },
{
    match sel {
        Some(s) => if s == i {
            None
        } else if s > i {
            Some(s - 1)
        } else {
            Some(s)
        },
        None => None,
    }
}

/// After a macro is removed, no assignment runs it.
pub proof fn law_deleted_macro_unreferenced(assignments: Seq<KeyAssignment>, id: u128)
    ensures
        forall|j: int|
            0 <= j < assignments.len() ==> (#[trigger] unlink_macro(assignments[j], id)).macro_id != Some(id),
{
}

/// The macros a loop event of macro `mi` may call: Single macros without
/// events of their own, other than macro `mi` itself.
pub open spec fn event_target(p: Profile, mi: int, m: Macro) -> bool {
    m.id != p.macros@[mi].id && m.fire == FireMode::Single && m.events@.len() == 0
}

/// The positions of the macros a loop event of macro `mi` may call, in order.
pub fn event_targets(p: &Profile, mi: usize) -> (r: Vec<usize>)
    requires
        mi < p.macros@.len(),
    ensures
        forall|k: int| 0 <= k < r@.len() ==> (#[trigger] r@[k]) < p.macros@.len() && event_target(*p, mi as int, p.macros@[r@[k] as int]),
        forall|j: int| 0 <= j < p.macros@.len() && event_target(*p, mi as int, p.macros@[j]) ==> r@.contains(j as usize),
        forall|a: int, b: int| 0 <= a < b < r@.len() ==> r@[a] < r@[b],
{
    let current = p.macros[mi].id;
    let mut r: Vec<usize> = Vec::new();
    let mut j: usize = 0;
    while j < p.macros.len()
        invariant
            j <= p.macros@.len(),
            mi < p.macros@.len(),
            current == p.macros@[mi as int].id,
            forall|k: int| 0 <= k < r@.len() ==> (#[trigger] r@[k]) < j && event_target(*p, mi as int, p.macros@[r@[k] as int]),
            forall|q: int| 0 <= q < j && event_target(*p, mi as int, p.macros@[q]) ==> r@.contains(q as usize),
            forall|a: int, b: int| 0 <= a < b < r@.len() ==> r@[a] < r@[b],
        decreases p.macros@.len() - j,
    {
        let m = &p.macros[j];
        if m.id != current && m.fire == FireMode::Single && m.events.len() == 0 {
            let ghost before = r@;
            r.push(j);
            proof {
                assert(r@[r@.len() - 1] == j);
                assert forall|q: int| 0 <= q < j + 1 && event_target(*p, mi as int, p.macros@[q]) implies r@.contains(
                    q as usize,
                ) by {
                    if q < j {
                        let w = choose|w: int| 0 <= w < before.len() && before[w] == q as usize;
                        assert(r@[w] == before[w]);
                    }
                }
            }
        }
        j = j + 1;
    }
    r
}

/// A new loop event calling `target` (or the nil identifier when there is no
/// valid target): every cycle, no minimum, after 100 ms.
pub fn new_loop_event(target: Option<u128>) -> (e: LoopEvent)
    ensures
        e.macro_id == match target {
            Some(t) => t,
            None => 0,
        },
        e.order == 1,
        e.min_loops == 0,
        e.delay_ms == 100,
{
    LoopEvent {
        id: new_id(),
        macro_id: match target {
            Some(t) => t,
            None => 0,
        },
        order: 1,
        min_loops: 0,
        delay_ms: 100,
    }
}

/// Switches a macro between simple and advanced steps: the steps of the
/// mode left behind are dropped; choosing the current mode changes nothing.
pub fn set_step_mode(m: &mut Macro, mode: StepMode)
    ensures
        old(m).mode == mode ==> *final(m) == *old(m),
        old(m).mode != mode && mode == StepMode::Advanced ==> *final(m) == (Macro {
            mode,
            simple_steps: final(m).simple_steps,
            ..*old(m)
        }) && final(m).simple_steps@.len() == 0,
        old(m).mode != mode && mode == StepMode::Simple ==> *final(m) == (Macro {
            mode,
            advanced_steps: final(m).advanced_steps,
            ..*old(m)
        }) && final(m).advanced_steps@.len() == 0,
{
    if m.mode != mode {
        match mode {
            StepMode::Advanced => {
                m.simple_steps = Vec::new();
            },
            StepMode::Simple => {
                m.advanced_steps = Vec::new();
            },
        }
        m.mode = mode;
    }
}

/// Moves item `i` one place up (swapping it with item `i - 1`).
pub fn move_up<T>(v: &mut Vec<T>, i: usize)
    requires
        0 < i < old(v)@.len(),
    ensures
        final(v)@ == old(v)@.update(i - 1, old(v)@[i as int]).update(i as int, old(v)@[i - 1]),
{
    let x = v.remove(i);
    v.insert(i - 1, x);
    assert(v@ =~= old(v)@.update(i - 1, old(v)@[i as int]).update(i as int, old(v)@[i - 1]));
}

// ── Assignments ───────────────────────────────────────────────────────────────

/// The assignment targets nothing and fires on any press duration.
pub fn clear_assignment_target(a: &mut KeyAssignment)
    ensures
        *final(a) == (KeyAssignment { macro_id: None, remap_key: None, trigger_mode: TriggerMode::Any, ..*old(a) }),
{
    a.macro_id = None;
    a.remap_key = None;
    a.trigger_mode = TriggerMode::Any;
}

/// Points the assignment at a macro (dropping its remap), or at no macro
/// (back to firing on any press duration, the remap kept).
pub fn set_target_macro(a: &mut KeyAssignment, mid: Option<u128>)
    ensures
        mid is Some ==> *final(a) == (KeyAssignment { macro_id: mid, remap_key: None, ..*old(a) }),
        mid is None ==> *final(a) == (KeyAssignment { macro_id: None, trigger_mode: TriggerMode::Any, ..*old(a) }),
{
    a.macro_id = mid;
    if mid.is_some() {
        a.remap_key = None;
    } else {
        a.trigger_mode = TriggerMode::Any;
    }
}

// ── Blocked keys ──────────────────────────────────────────────────────────────

/// The blocked list with each default key appended that it lacks.
pub open spec fn with_defaults(blocked: Seq<Seq<char>>) -> Seq<Seq<char>> {
    let d = default_blocked_key_names();
    let b0 = if blocked.contains(d[0]) {
        blocked
    } else {
        blocked.push(d[0])
    };
    let b1 = if b0.contains(d[1]) {
        b0
    } else {
        b0.push(d[1])
    };
    if b1.contains(d[2]) {
        b1
    } else {
        b1.push(d[2])
    }
}

proof fn lemma_push_keeps(s: Seq<Seq<char>>, x: Seq<char>, y: Seq<char>)
    requires
        s.contains(y),
    ensures
        s.push(x).contains(y),
{
    let i = choose|i: int| 0 <= i < s.len() && s[i] == y;
    assert(s.push(x)[i] == y);
}

proof fn lemma_push_has(s: Seq<Seq<char>>, x: Seq<char>)
    ensures
        s.push(x).contains(x),
{
    assert(s.push(x)[s.len() as int] == x);
}

/// After the defaults are restored the list holds every default key.
proof fn lemma_with_defaults_complete(blocked: Seq<Seq<char>>)
    ensures
        forall|k: int| 0 <= k < 3 ==> with_defaults(blocked).contains(#[trigger] default_blocked_key_names()[k]),
{
    let d = default_blocked_key_names();
    let b0 = if blocked.contains(d[0]) {
        blocked
    } else {
        blocked.push(d[0])
    };
    if !blocked.contains(d[0]) {
        lemma_push_has(blocked, d[0]);
    }
    let b1 = if b0.contains(d[1]) {
        b0
    } else {
        b0.push(d[1])
    };
    if !b0.contains(d[1]) {
        lemma_push_has(b0, d[1]);
        lemma_push_keeps(b0, d[1], d[0]);
    }
    let b2 = with_defaults(blocked);
    if !b1.contains(d[2]) {
        lemma_push_has(b1, d[2]);
        lemma_push_keeps(b1, d[2], d[0]);
        lemma_push_keeps(b1, d[2], d[1]);
    }
    assert(b2.contains(d[0]) && b2.contains(d[1]) && b2.contains(d[2]));
}

/// Restoring the default blocked keys a second time changes nothing.
pub proof fn law_restore_defaults_idempotent(blocked: Seq<Seq<char>>)
    ensures
        with_defaults(with_defaults(blocked)) == with_defaults(blocked),
{
    lemma_with_defaults_complete(blocked);
    let d = default_blocked_key_names();
    assert(with_defaults(blocked).contains(d[0]));
    assert(with_defaults(blocked).contains(d[1]));
    assert(with_defaults(blocked).contains(d[2]));
}

fn contains_string(v: &Vec<String>, s: &String) -> (r: bool)
    ensures
        r == strings_view(v@).contains(s@),
{
    let target = chars_of(s.as_str());
    let ghost sv = strings_view(v@);
    let mut k: usize = 0;
    while k < v.len()
        invariant
            k <= v@.len(),
            sv == strings_view(v@),
            target@ == s@,
            forall|q: int| 0 <= q < k ==> sv[q] != s@,
        decreases v@.len() - k,
    {
        let c = chars_of(v[k].as_str());
        if chars_eq(c.as_slice(), target.as_slice()) {
            assert(sv[k as int] == s@);
            return true;
        }
        k = k + 1;
    }
    false
}

/// Adds the default blocked keys that the profile lacks.
pub fn restore_default_blocked(p: &mut Profile)
    ensures
        *final(p) == (Profile { blocked_keys: final(p).blocked_keys, ..*old(p) }),
        strings_view(final(p).blocked_keys@) == with_defaults(strings_view(old(p).blocked_keys@)),
{
    let defaults = default_blocked_keys();
    let mut k: usize = 0;
    let ghost d = default_blocked_key_names();
    let ghost b_start = strings_view(p.blocked_keys@);
    assert(defaults@.len() == strings_view(defaults@).len());
    while k < 3
        invariant
            k <= 3,
            defaults@.len() == 3,
            strings_view(defaults@) == d,
            d == default_blocked_key_names(),
            *p == (Profile { blocked_keys: p.blocked_keys, ..*old(p) }),
            b_start == strings_view(old(p).blocked_keys@),
            k == 0 ==> strings_view(p.blocked_keys@) == b_start,
            k == 1 ==> strings_view(p.blocked_keys@) == (if b_start.contains(d[0]) {
                b_start
            } else {
                b_start.push(d[0])
            }),
            k == 2 ==> strings_view(p.blocked_keys@) == ({
                let b0 = if b_start.contains(d[0]) {
                    b_start
                } else {
                    b_start.push(d[0])
                };
                if b0.contains(d[1]) {
                    b0
                } else {
                    b0.push(d[1])
                }
            }),
            k == 3 ==> strings_view(p.blocked_keys@) == with_defaults(b_start),
        decreases 3 - k,
    {
        assert(strings_view(defaults@)[k as int] == defaults@[k as int]@);
        if !contains_string(&p.blocked_keys, &defaults[k]) {
            let ghost before = strings_view(p.blocked_keys@);
            p.blocked_keys.push(defaults[k].clone());
            proof {
                assert(strings_view(p.blocked_keys@) =~= before.push(d[k as int]));
            }
        }
        k = k + 1;
    }
}

// ── Auto-detect and game link ─────────────────────────────────────────────────

/// Adds a fragment to target `ti` of the profile: the text trimmed, when it
/// is not empty and the target exists. Returns whether it was added.
pub fn add_fragment(p: &mut Profile, ti: usize, text: &str) -> (r: bool)
    ensures
        r == (trim_spec(text@).len() > 0 && ti < old(p).auto_detect@.len()),
        !r ==> *final(p) == *old(p),
        r ==> *final(p) == (Profile { auto_detect: final(p).auto_detect, ..*old(p) })
            && final(p).auto_detect@.len() == old(p).auto_detect@.len()
            && (forall|j: int| 0 <= j < old(p).auto_detect@.len() && j != ti ==> final(p).auto_detect@[j] == old(p).auto_detect@[j])
            && final(p).auto_detect@[ti as int].id == old(p).auto_detect@[ti as int].id
            && strings_view(final(p).auto_detect@[ti as int].fragments@) == strings_view(
                old(p).auto_detect@[ti as int].fragments@,
            ).push(trim_spec(text@)),
{
    let cs = chars_of(text);
    let frag = trim_chars(cs.as_slice());
    if frag.len() == 0 || ti >= p.auto_detect.len() {
        return false;
    }
    let ghost before = p.auto_detect@;
    let mut t = p.auto_detect.remove(ti);
    let ghost fr = strings_view(t.fragments@);
    t.fragments.push(string_from_chars(frag.as_slice()));
    proof {
        assert(strings_view(t.fragments@) =~= fr.push(trim_spec(text@)));
    }
    p.auto_detect.insert(ti, t);
    proof {
        assert forall|j: int| 0 <= j < before.len() && j != ti implies p.auto_detect@[j] == before[j] by {
            if j < ti {
            } else {
            }
        }
    }
    true
}

/// A game link draft worth keeping: it names the game, a Steam id or a
/// process.
pub open spec fn has_content(g: GameLink) -> bool {
    g.display_name@.len() > 0 || g.steam_id is Some || g.process is Some
}

/// The link a profile gets from the dialog's draft: the draft when it has
/// content, else none.
pub fn link_from_draft(draft: GameLink) -> (r: Option<GameLink>)
    ensures
        has_content(draft) ==> r == Some(draft),
        !has_content(draft) ==> r is None,
{
    let name = chars_of(draft.display_name.as_str());
    if name.len() > 0 || draft.steam_id.is_some() || draft.process.is_some() {
        Some(draft)
    } else {
        None
    }
}

/// The process of a link as typed: trimmed, or none when blank.
pub fn process_from_text(text: &str) -> (r: Option<String>)
    ensures
        trim_spec(text@).len() == 0 ==> r is None,
        trim_spec(text@).len() > 0 ==> (r matches Some(s) && s@ == trim_spec(text@)),
{
    let cs = chars_of(text);
    let t = trim_chars(cs.as_slice());
    if t.len() == 0 {
        None
    } else {
        Some(string_from_chars(t.as_slice()))
    }
}

} // verus!
