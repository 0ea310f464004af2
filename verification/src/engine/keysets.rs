//! Key codes derived from a profile: what a remap presses, what a loop macro
//! must release, which source keys a session listens to, and which keys the
//! virtual output device must be able to send.
use vstd::prelude::*;
use crate::config::{AdvancedEvent, AdvancedStep, KeyAssignment, LoopEvent, Macro, ModifierKey, Profile, SimpleStep, StepMode};
use crate::engine::matching::{find_macro, lemma_macro_index_bounds, macro_index};
use crate::keys::{parse_key_spec, KeyTable};
use crate::text::{chars_of, split_chars, split_on, trim_chars, trim_spec};

verus! {

/// The codes of the names that parse, in order.
pub open spec fn parse_names(names: Seq<Seq<char>>) -> Seq<u16>
    decreases names.len(),
{
    if names.len() == 0 {
        seq![]
    } else {
        let rest = parse_names(names.drop_last());
        match parse_key_spec(names.last()) {
            Some(c) => rest.push(c),
            None => rest,
        }
    }
}

/// The pieces of a `+`-joined key combination, each trimmed.
pub open spec fn combo_parts(r: Seq<char>) -> Seq<Seq<char>> {
    split_on(r, '+').map_values(|p: Seq<char>| trim_spec(p))
}

/// The keys a remap target such as `"KEY_LEFTCTRL+KEY_C"` presses, in order;
/// pieces that name no key are skipped.
pub open spec fn remap_codes(r: Seq<char>) -> Seq<u16> {
    parse_names(combo_parts(r))
}

/// Parses each name, keeping the codes of those that parse.
pub fn parse_name_list(table: &KeyTable, names: &Vec<Vec<char>>) -> (r: Vec<u16>)
    requires
        table.wf(),
    ensures
        r@ == parse_names(names@.map_values(|v: Vec<char>| v@)),
{
    let ghost views = names@.map_values(|v: Vec<char>| v@);
    let mut r: Vec<u16> = Vec::new();
    let mut i: usize = 0;
    while i < names.len()
        invariant
            table.wf(),
            views == names@.map_values(|v: Vec<char>| v@),
            i <= names@.len(),
            r@ == parse_names(views.take(i as int)),
        decreases names@.len() - i,
    {
        proof {
            assert(views.take(i + 1).drop_last() =~= views.take(i as int));
            assert(views.take(i + 1).last() == names@[i as int]@);
        }
        match table.parse_key_chars(names[i].as_slice()) {
            Some(c) => r.push(c),
            None => {},
        }
        i = i + 1;
    }
    proof {
        assert(views.take(names@.len() as int) =~= views);
    }
    r
}

/// The keys a remap target presses.
pub fn remap_keys(table: &KeyTable, remap: &String) -> (r: Vec<u16>)
    requires
        table.wf(),
    ensures
        r@ == remap_codes(remap@),
{
    let cs = chars_of(remap.as_str());
    let parts = split_chars(cs.as_slice(), '+');
    let mut trimmed: Vec<Vec<char>> = Vec::new();
    let mut i: usize = 0;
    while i < parts.len()
        invariant
            i <= parts@.len(),
            parts@.len() == split_on(cs@, '+').len(),
            forall|k: int| 0 <= k < parts@.len() ==> #[trigger] parts@[k]@ == split_on(cs@, '+')[k],
            trimmed@.len() == i,
            forall|k: int| 0 <= k < i ==> #[trigger] trimmed@[k]@ == trim_spec(split_on(cs@, '+')[k]),
        decreases parts@.len() - i,
    {
        trimmed.push(trim_chars(parts[i].as_slice()));
        i = i + 1;
    }
    proof {
        assert(trimmed@.map_values(|v: Vec<char>| v@) =~= combo_parts(remap@));
    }
    parse_name_list(table, &trimmed)
}

/// The names of the keys a macro presses: every simple step's key, or the
/// keys of the down events of an advanced macro.
pub open spec fn pressed_names(mac: Macro) -> Seq<Seq<char>> {
    match mac.mode {
        StepMode::Simple => simple_names(mac.simple_steps@),
        StepMode::Advanced => down_names(mac.advanced_steps@),
    }
}

/// The key names of simple steps, in order.
pub open spec fn simple_names(steps: Seq<SimpleStep>) -> Seq<Seq<char>> {
    steps.map_values(|s: SimpleStep| s.action@)
}

/// A down event (of a key or of a mouse button).
pub open spec fn is_down(e: AdvancedEvent) -> bool {
    e == AdvancedEvent::KeyDown || e == AdvancedEvent::MouseDown
}

/// The key names of the down events among advanced steps, in order.
pub open spec fn down_names(steps: Seq<AdvancedStep>) -> Seq<Seq<char>>
    decreases steps.len(),
{
    if steps.len() == 0 {
        seq![]
    } else {
        let rest = down_names(steps.drop_last());
        if is_down(steps.last().event) {
            rest.push(steps.last().key@)
        } else {
            rest
        }
    }
}

/// The first occurrence of each code, in order.
pub open spec fn first_occurrences(codes: Seq<u16>) -> Seq<u16>
    decreases codes.len(),
{
    if codes.len() == 0 {
        seq![]
    } else {
        let rest = first_occurrences(codes.drop_last());
        if codes.drop_last().contains(codes.last()) {
            rest
        } else {
            rest.push(codes.last())
        }
    }
}

/// The keys a loop macro may leave held: the distinct codes it presses, in
/// the order they first occur. They are released when the loop is aborted.
pub open spec fn release_codes(mac: Macro) -> Seq<u16> {
    first_occurrences(parse_names(pressed_names(mac)))
}

proof fn lemma_push_to_set(sq: Seq<u16>, e: u16)
    ensures
        sq.push(e).to_set() == sq.to_set().insert(e),
{
    Seq::<u16>::lemma_to_set_insert_commutes(sq, e);
    assert(sq.push(e) =~= sq + seq![e]);
}

proof fn lemma_first_occurrences_set(codes: Seq<u16>)
    ensures
        first_occurrences(codes).to_set() == codes.to_set(),
    decreases codes.len(),
{
    if codes.len() > 0 {
        lemma_first_occurrences_set(codes.drop_last());
        let r = first_occurrences(codes.drop_last());
        assert(codes =~= codes.drop_last().push(codes.last()));
        lemma_push_to_set(codes.drop_last(), codes.last());
        if codes.drop_last().contains(codes.last()) {
            assert(codes.to_set() =~= codes.drop_last().to_set());
        } else {
            lemma_push_to_set(r, codes.last());
            assert(first_occurrences(codes).to_set() =~= codes.to_set());
        }
    }
}

/// The key names that a macro presses.
fn macro_pressed_names(mac: &Macro) -> (r: Vec<Vec<char>>)
    ensures
        r@.map_values(|v: Vec<char>| v@) == pressed_names(*mac),
{
    let mut r: Vec<Vec<char>> = Vec::new();
    match mac.mode {
        StepMode::Simple => {
            let mut i: usize = 0;
            while i < mac.simple_steps.len()
                invariant
                    mac.mode == StepMode::Simple,
                    i <= mac.simple_steps@.len(),
                    r@.map_values(|v: Vec<char>| v@) == simple_names(mac.simple_steps@.take(i as int)),
                decreases mac.simple_steps@.len() - i,
            {
                r.push(chars_of(mac.simple_steps[i].action.as_str()));
                proof {
                    assert(simple_names(mac.simple_steps@.take(i + 1)) =~= simple_names(mac.simple_steps@.take(i as int)).push(
                        mac.simple_steps@[i as int].action@));
                    assert(r@.map_values(|v: Vec<char>| v@) =~= simple_names(mac.simple_steps@.take(i + 1)));
                }
                i = i + 1;
            }
            proof {
                assert(mac.simple_steps@.take(mac.simple_steps@.len() as int) =~= mac.simple_steps@);
            }
        },
        StepMode::Advanced => {
            let mut i: usize = 0;
            while i < mac.advanced_steps.len()
                invariant
                    mac.mode == StepMode::Advanced,
                    i <= mac.advanced_steps@.len(),
                    r@.map_values(|v: Vec<char>| v@) == down_names(mac.advanced_steps@.take(i as int)),
                decreases mac.advanced_steps@.len() - i,
            {
                let step = &mac.advanced_steps[i];
                proof {
                    assert(mac.advanced_steps@.take(i + 1).drop_last() =~= mac.advanced_steps@.take(i as int));
                }
                if step.event == AdvancedEvent::KeyDown || step.event == AdvancedEvent::MouseDown {
                    r.push(chars_of(step.key.as_str()));
                    proof {
                        assert(r@.map_values(|v: Vec<char>| v@) =~= down_names(mac.advanced_steps@.take(i as int)).push(step.key@));
                    }
                }
                i = i + 1;
            }
            proof {
                assert(mac.advanced_steps@.take(mac.advanced_steps@.len() as int) =~= mac.advanced_steps@);
            }
        },
    }
    r
}

/// The first occurrence of each code, in order.
pub fn dedup_codes(codes: &Vec<u16>) -> (r: Vec<u16>)
    ensures
        r@ == first_occurrences(codes@),
        r@.no_duplicates(),
        r@.to_set() == codes@.to_set(),
{
    let mut r: Vec<u16> = Vec::new();
    let mut i: usize = 0;
    while i < codes.len()
        invariant
            i <= codes@.len(),
            r@ == first_occurrences(codes@.take(i as int)),
            r@.no_duplicates(),
            r@.to_set() == codes@.take(i as int).to_set(),
        decreases codes@.len() - i,
    {
        let c = codes[i];
        proof {
            assert(codes@.take(i + 1).drop_last() =~= codes@.take(i as int));
            assert(codes@.take(i + 1).last() == c);
            lemma_first_occurrences_set(codes@.take(i as int));
            lemma_first_occurrences_set(codes@.take(i + 1));
        }
        let mut seen = false;
        let mut j: usize = 0;
        while j < r.len()
            invariant
                j <= r@.len(),
                !seen ==> forall|k: int| 0 <= k < j ==> r@[k] != c,
                seen ==> r@.contains(c),
            decreases r@.len() - j,
        {
            if r[j] == c {
                seen = true;
            }
            j = j + 1;
        }
        proof {
            assert(r@.contains(c) == codes@.take(i as int).contains(c)) by {
                assert(r@.to_set().contains(c) == r@.contains(c));
                assert(codes@.take(i as int).to_set().contains(c) == codes@.take(i as int).contains(c));
            }
        }
        if !seen {
            r.push(c);
            proof {
                lemma_push_to_set(codes@.take(i as int), c);
                assert(codes@.take(i + 1) =~= codes@.take(i as int).push(c));
                assert(r@.to_set() =~= codes@.take(i + 1).to_set()) by {
                    lemma_push_to_set(r@.drop_last(), c);
                    assert(r@ =~= r@.drop_last().push(c));
                }
                assert(r@.no_duplicates()) by {
                    assert forall|a: int, b: int| 0 <= a < r@.len() && 0 <= b < r@.len() && a != b implies r@[a] != r@[b] by {
                        if a == r@.len() - 1 {
                            assert(r@[b] == r@.drop_last()[b]);
                        } else if b == r@.len() - 1 {
                            assert(r@[a] == r@.drop_last()[a]);
                        }
                    }
                }
            }
        } else {
            proof {
                assert(codes@.take(i + 1) =~= codes@.take(i as int).push(c));
                lemma_push_to_set(codes@.take(i as int), c);
                assert(codes@.take(i + 1).to_set() =~= codes@.take(i as int).to_set());
            }
        }
        i = i + 1;
    }
    proof {
        assert(codes@.take(codes@.len() as int) =~= codes@);
    }
    r
}

/// The distinct keys that a loop macro presses, to be released if it is aborted.
pub fn macro_release_keys(table: &KeyTable, mac: &Macro) -> (r: Vec<u16>)
    requires
        table.wf(),
    ensures
        r@ == release_codes(*mac),
        r@.no_duplicates(),
        r@.to_set() == parse_names(pressed_names(*mac)).to_set(),
{
    let names = macro_pressed_names(mac);
    let codes = parse_name_list(table, &names);
    dedup_codes(&codes)
}

// ── Session key sets ──────────────────────────────────────────────────────────

/// The names of the keys a profile listens to: every assignment's source key,
/// then every modifier's key.
pub open spec fn source_names(p: Profile) -> Seq<Seq<char>> {
    p.assignments@.map_values(|a: KeyAssignment| a.source_key@) + p.modifiers@.map_values(|m: ModifierKey| m.key@)
}

/// The codes a session listens to.
pub open spec fn source_codes(p: Profile) -> Set<u16> {
    parse_names(source_names(p)).to_set()
}

/// The key names of all advanced steps, in order.
pub open spec fn advanced_names(steps: Seq<AdvancedStep>) -> Seq<Seq<char>> {
    steps.map_values(|s: AdvancedStep| s.key@)
}

/// The key names of a macro's steps: simple steps, then advanced steps.
pub open spec fn step_names(mac: Macro) -> Seq<Seq<char>> {
    simple_names(mac.simple_steps@) + advanced_names(mac.advanced_steps@)
}

/// The key names of the macros that a macro's events call (by identifier).
pub open spec fn event_names(macros: Seq<Macro>, events: Seq<LoopEvent>) -> Seq<Seq<char>>
    decreases events.len(),
{
    if events.len() == 0 {
        seq![]
    } else {
        event_names(macros, events.drop_last()) + match macro_index(macros, events.last().macro_id) {
            Some(i) => step_names(macros[i]),
            None => seq![],
        }
    }
}

/// The key names that the macros at positions `0..n` and their events press.
pub open spec fn macros_names(macros: Seq<Macro>, n: int) -> Seq<Seq<char>>
    decreases n,
{
    if n <= 0 {
        seq![]
    } else {
        macros_names(macros, n - 1) + step_names(macros[n - 1]) + event_names(macros, macros[n - 1].events@)
    }
}

/// The key names that the remap targets of the assignments press.
pub open spec fn remap_names(assigns: Seq<KeyAssignment>) -> Seq<Seq<char>>
    decreases assigns.len(),
{
    if assigns.len() == 0 {
        seq![]
    } else {
        remap_names(assigns.drop_last()) + match assigns.last().remap_key {
            Some(r) => combo_parts(r@),
            None => seq![],
        }
    }
}

/// The names of every key the session's virtual device must be able to send.
pub open spec fn output_names(p: Profile) -> Seq<Seq<char>> {
    macros_names(p.macros@, p.macros@.len() as int) + remap_names(p.assignments@)
}

/// The codes of every key the session's virtual device must be able to send.
pub open spec fn output_codes(p: Profile) -> Set<u16> {
    parse_names(output_names(p)).to_set()
}

proof fn lemma_views_push(v: Seq<Vec<char>>, x: Vec<char>)
    ensures
        v.push(x).map_values(|w: Vec<char>| w@) == v.map_values(|w: Vec<char>| w@).push(x@),
{
    assert(v.push(x).map_values(|w: Vec<char>| w@) =~= v.map_values(|w: Vec<char>| w@).push(x@));
}

proof fn lemma_parse_names_append(a: Seq<Seq<char>>, b: Seq<Seq<char>>)
    ensures
        parse_names(a + b) == parse_names(a) + parse_names(b),
    decreases b.len(),
{
    if b.len() == 0 {
        assert(a + b =~= a);
        assert(parse_names(a) + parse_names(b) =~= parse_names(a));
    } else {
        lemma_parse_names_append(a, b.drop_last());
        assert((a + b).drop_last() =~= a + b.drop_last());
        assert((a + b).last() == b.last());
        match parse_key_spec(b.last()) {
            Some(c) => {
                assert(parse_names(a) + parse_names(b) =~= (parse_names(a) + parse_names(b.drop_last())).push(c));
            },
            None => {},
        }
    }
}

fn push_names_of_strings_simple(out: &mut Vec<Vec<char>>, steps: &Vec<SimpleStep>)
    ensures
        final(out)@.map_values(|v: Vec<char>| v@) == old(out)@.map_values(|v: Vec<char>| v@) + simple_names(steps@),
{
    let mut i: usize = 0;
    while i < steps.len()
        invariant
            i <= steps@.len(),
            out@.map_values(|v: Vec<char>| v@) == old(out)@.map_values(|v: Vec<char>| v@) + simple_names(steps@.take(i as int)),
        decreases steps@.len() - i,
    {
        let ghost prev = out@;
        let nm = chars_of(steps[i].action.as_str());
        out.push(nm);
        proof {
            lemma_views_push(prev, nm);
            assert(simple_names(steps@.take(i + 1)) =~= simple_names(steps@.take(i as int)).push(steps@[i as int].action@));
            assert(out@.map_values(|v: Vec<char>| v@) =~= old(out)@.map_values(|v: Vec<char>| v@) + simple_names(steps@.take(i + 1)));
        }
        i = i + 1;
    }
    proof {
        assert(steps@.take(steps@.len() as int) =~= steps@);
    }
}

fn push_names_of_advanced(out: &mut Vec<Vec<char>>, steps: &Vec<AdvancedStep>)
    ensures
        final(out)@.map_values(|v: Vec<char>| v@) == old(out)@.map_values(|v: Vec<char>| v@) + advanced_names(steps@),
{
    let mut i: usize = 0;
    while i < steps.len()
        invariant
            i <= steps@.len(),
            out@.map_values(|v: Vec<char>| v@) == old(out)@.map_values(|v: Vec<char>| v@) + advanced_names(steps@.take(i as int)),
        decreases steps@.len() - i,
    {
        let ghost prev = out@;
        let nm = chars_of(steps[i].key.as_str());
        out.push(nm);
        proof {
            lemma_views_push(prev, nm);
            assert(advanced_names(steps@.take(i + 1)) =~= advanced_names(steps@.take(i as int)).push(steps@[i as int].key@));
            assert(out@.map_values(|v: Vec<char>| v@) =~= old(out)@.map_values(|v: Vec<char>| v@) + advanced_names(steps@.take(i + 1)));
        }
        i = i + 1;
    }
    proof {
        assert(steps@.take(steps@.len() as int) =~= steps@);
    }
}

fn push_step_names(out: &mut Vec<Vec<char>>, mac: &Macro)
    ensures
        final(out)@.map_values(|v: Vec<char>| v@) == old(out)@.map_values(|v: Vec<char>| v@) + step_names(*mac),
{
    push_names_of_strings_simple(out, &mac.simple_steps);
    push_names_of_advanced(out, &mac.advanced_steps);
    assert(out@.map_values(|v: Vec<char>| v@) =~= old(out)@.map_values(|v: Vec<char>| v@) + step_names(*mac));
}

/// The codes a session listens to, each once.
pub fn source_key_codes(table: &KeyTable, profile: &Profile) -> (r: Vec<u16>)
    requires
        table.wf(),
    ensures
        r@.to_set() == source_codes(*profile),
        r@.no_duplicates(),
{
    let mut names: Vec<Vec<char>> = Vec::new();
    let mut i: usize = 0;
    while i < profile.assignments.len()
        invariant
            i <= profile.assignments@.len(),
            names@.map_values(|v: Vec<char>| v@) == profile.assignments@.take(i as int).map_values(|a: KeyAssignment| a.source_key@),
        decreases profile.assignments@.len() - i,
    {
        let ghost prev = names@;
        let nm = chars_of(profile.assignments[i].source_key.as_str());
        names.push(nm);
        proof {
            lemma_views_push(prev, nm);
            assert(profile.assignments@.take(i + 1).map_values(|a: KeyAssignment| a.source_key@) =~= profile.assignments@.take(i as int).map_values(|a: KeyAssignment| a.source_key@).push(profile.assignments@[i as int].source_key@));
            assert(names@.map_values(|v: Vec<char>| v@) =~= profile.assignments@.take(i + 1).map_values(|a: KeyAssignment| a.source_key@));
        }
        i = i + 1;
    }
    let ghost first = names@.map_values(|v: Vec<char>| v@);
    proof {
        assert(profile.assignments@.take(profile.assignments@.len() as int) =~= profile.assignments@);
    }
    let mut j: usize = 0;
    while j < profile.modifiers.len()
        invariant
            j <= profile.modifiers@.len(),
            names@.map_values(|v: Vec<char>| v@) == first + profile.modifiers@.take(j as int).map_values(|m: ModifierKey| m.key@),
        decreases profile.modifiers@.len() - j,
    {
        let ghost prev = names@;
        let nm = chars_of(profile.modifiers[j].key.as_str());
        names.push(nm);
        proof {
            lemma_views_push(prev, nm);
            assert(profile.modifiers@.take(j + 1).map_values(|m: ModifierKey| m.key@) =~= profile.modifiers@.take(j as int).map_values(|m: ModifierKey| m.key@).push(profile.modifiers@[j as int].key@));
            assert(names@.map_values(|v: Vec<char>| v@) =~= first + profile.modifiers@.take(j + 1).map_values(|m: ModifierKey| m.key@));
        }
        j = j + 1;
    }
    proof {
        assert(profile.modifiers@.take(profile.modifiers@.len() as int) =~= profile.modifiers@);
        assert(names@.map_values(|v: Vec<char>| v@) =~= source_names(*profile));
    }
    let codes = parse_name_list(table, &names);
    dedup_codes(&codes)
}

/// Whether a device that supports these key codes has a key the session listens to.
pub fn device_is_relevant(supported: &[u16], source: &[u16]) -> (r: bool)
    ensures
        r == exists|i: int| 0 <= i < supported@.len() && source@.contains(#[trigger] supported@[i]),
{
    let mut i: usize = 0;
    while i < supported.len()
        invariant
            i <= supported@.len(),
            forall|k: int| 0 <= k < i ==> !source@.contains(#[trigger] supported@[k]),
        decreases supported@.len() - i,
    {
        let mut j: usize = 0;
        while j < source.len()
            invariant
                j <= source@.len(),
                i < supported@.len(),
                forall|k: int| 0 <= k < j ==> source@[k] != supported@[i as int],
            decreases source@.len() - j,
        {
            if source[j] == supported[i] {
                proof {
                    assert(source@.contains(supported@[i as int]));
                }
                return true;
            }
            j = j + 1;
        }
        i = i + 1;
    }
    false
}

/// The codes the session's virtual device must be able to send, each once.
pub fn output_key_codes(table: &KeyTable, profile: &Profile) -> (r: Vec<u16>)
    requires
        table.wf(),
    ensures
        r@.to_set() == output_codes(*profile),
        r@.no_duplicates(),
{
    let mut names: Vec<Vec<char>> = Vec::new();
    let ghost macros = profile.macros@;
    let mut i: usize = 0;
    while i < profile.macros.len()
        invariant
            macros == profile.macros@,
            i <= macros.len(),
            names@.map_values(|v: Vec<char>| v@) == macros_names(macros, i as int),
        decreases macros.len() - i,
    {
        let mac = &profile.macros[i];
        push_step_names(&mut names, mac);
        let mut k: usize = 0;
        let ghost base = names@.map_values(|v: Vec<char>| v@);
        while k < mac.events.len()
            invariant
                macros == profile.macros@,
                i < macros.len(),
                *mac == macros[i as int],
                k <= mac.events@.len(),
                names@.map_values(|v: Vec<char>| v@) == base + event_names(macros, mac.events@.take(k as int)),
            decreases mac.events@.len() - k,
        {
            proof {
                assert(mac.events@.take(k + 1).drop_last() =~= mac.events@.take(k as int));
                assert(mac.events@.take(k + 1).last() == mac.events@[k as int]);
                lemma_macro_index_bounds(macros, mac.events@[k as int].macro_id);
            }
            match find_macro(&profile.macros, mac.events[k].macro_id) {
                Some(mi) => {
                    let ghost before = names@.map_values(|v: Vec<char>| v@);
                    push_step_names(&mut names, &profile.macros[mi]);
                    proof {
                        assert(names@.map_values(|v: Vec<char>| v@) =~= base + event_names(macros, mac.events@.take(k + 1)));
                    }
                },
                None => {
                    proof {
                        assert(base + event_names(macros, mac.events@.take(k + 1)) =~= base + event_names(macros, mac.events@.take(k as int)));
                    }
                },
            }
            k = k + 1;
        }
        proof {
            assert(mac.events@.take(mac.events@.len() as int) =~= mac.events@);
            assert(names@.map_values(|v: Vec<char>| v@) =~= macros_names(macros, i + 1));
        }
        i = i + 1;
    }
    let ghost first = names@.map_values(|v: Vec<char>| v@);
    let mut j: usize = 0;
    while j < profile.assignments.len()
        invariant
            j <= profile.assignments@.len(),
            names@.map_values(|v: Vec<char>| v@) == first + remap_names(profile.assignments@.take(j as int)),
        decreases profile.assignments@.len() - j,
    {
        proof {
            assert(profile.assignments@.take(j + 1).drop_last() =~= profile.assignments@.take(j as int));
            assert(profile.assignments@.take(j + 1).last() == profile.assignments@[j as int]);
        }
        match &profile.assignments[j].remap_key {
            Some(r) => {
                let cs = chars_of(r.as_str());
                let parts = split_chars(cs.as_slice(), '+');
                let ghost before = names@.map_values(|v: Vec<char>| v@);
                let mut k: usize = 0;
                while k < parts.len()
                    invariant
                        k <= parts@.len(),
                        parts@.len() == split_on(cs@, '+').len(),
                        forall|m: int| 0 <= m < parts@.len() ==> #[trigger] parts@[m]@ == split_on(cs@, '+')[m],
                        names@.map_values(|v: Vec<char>| v@) == before + combo_parts(cs@).take(k as int),
                    decreases parts@.len() - k,
                {
                    let ghost prev = names@;
                    let nm = trim_chars(parts[k].as_slice());
                    names.push(nm);
                    proof {
                        lemma_views_push(prev, nm);
                        assert(combo_parts(cs@).take(k + 1) =~= combo_parts(cs@).take(k as int).push(trim_spec(split_on(cs@, '+')[k as int])));
                        assert(names@.map_values(|v: Vec<char>| v@) =~= before + combo_parts(cs@).take(k + 1));
                    }
                    k = k + 1;
                }
                proof {
                    assert(combo_parts(cs@).take(parts@.len() as int) =~= combo_parts(cs@));
                    assert(names@.map_values(|v: Vec<char>| v@) =~= first + remap_names(profile.assignments@.take(j + 1)));
                }
            },
            None => {
                proof {
                    assert(first + remap_names(profile.assignments@.take(j + 1)) =~= first + remap_names(profile.assignments@.take(j as int)));
                }
            },
        }
        j = j + 1;
    }
    proof {
        assert(profile.assignments@.take(profile.assignments@.len() as int) =~= profile.assignments@);
        assert(names@.map_values(|v: Vec<char>| v@) =~= output_names(*profile));
    }
    let codes = parse_name_list(table, &names);
    dedup_codes(&codes)
}


proof fn lemma_parse_names_has(names: Seq<Seq<char>>, x: Seq<char>, c: u16)
    requires
        names.contains(x),
        parse_key_spec(x) == Some(c),
    ensures
        parse_names(names).contains(c),
    decreases names.len(),
{
    let rest = parse_names(names.drop_last());
    if names.last() == x {
        assert(parse_names(names) == rest.push(c));
        assert(rest.push(c)[rest.len() as int] == c);
    } else {
        let i = choose|i: int| 0 <= i < names.len() && names[i] == x;
        assert(i < names.len() - 1);
        assert(names.drop_last()[i] == x);
        lemma_parse_names_has(names.drop_last(), x, c);
        let j = choose|j: int| 0 <= j < rest.len() && rest[j] == c;
        match parse_key_spec(names.last()) {
            Some(d) => {
                assert(rest.push(d)[j] == c);
            },
            None => {},
        }
    }
}

proof fn lemma_macros_names_has(macros: Seq<Macro>, n: int, mi: int, k: int)
    requires
        0 <= mi < n <= macros.len(),
        0 <= k < step_names(macros[mi]).len(),
    ensures
        macros_names(macros, n).contains(step_names(macros[mi])[k]),
    decreases n,
{
    let prev = macros_names(macros, n - 1);
    let own = step_names(macros[n - 1]);
    let evs = event_names(macros, macros[n - 1].events@);
    assert(macros_names(macros, n) == prev + own + evs);
    if mi == n - 1 {
        assert((prev + own + evs)[prev.len() + k] == own[k]);
    } else {
        lemma_macros_names_has(macros, n - 1, mi, k);
        let i = choose|i: int| 0 <= i < prev.len() && prev[i] == step_names(macros[mi])[k];
        assert((prev + own + evs)[i] == prev[i]);
    }
}

/// Every key that a step of one of the profile's macros names, simple or
/// advanced, and that parses, is among the keys the session's virtual device
/// is made able to send.
pub proof fn law_macro_step_keys_are_sendable(p: Profile, mi: int)
    requires
        0 <= mi < p.macros@.len(),
    ensures
        forall|si: int|
            0 <= si < p.macros@[mi].advanced_steps@.len() && (#[trigger] parse_key_spec(
                p.macros@[mi].advanced_steps@[si].key@,
            )) is Some ==> output_codes(p).contains(parse_key_spec(p.macros@[mi].advanced_steps@[si].key@)->0),
        forall|si: int|
            0 <= si < p.macros@[mi].simple_steps@.len() && (#[trigger] parse_key_spec(
                p.macros@[mi].simple_steps@[si].action@,
            )) is Some ==> output_codes(p).contains(parse_key_spec(p.macros@[mi].simple_steps@[si].action@)->0),
{
    let mac = p.macros@[mi];
    let ns = simple_names(mac.simple_steps@).len();
    let all = output_names(p);
    let mine = macros_names(p.macros@, p.macros@.len() as int);
    assert forall|x: Seq<char>| mine.contains(x) implies all.contains(x) by {
        let i = choose|i: int| 0 <= i < mine.len() && mine[i] == x;
        assert(all[i] == mine[i]);
    }
    assert forall|si: int|
        0 <= si < mac.advanced_steps@.len() && (#[trigger] parse_key_spec(mac.advanced_steps@[si].key@)) is Some
        implies output_codes(p).contains(parse_key_spec(mac.advanced_steps@[si].key@)->0) by {
        let x = mac.advanced_steps@[si].key@;
        assert(step_names(mac)[ns + si] == x);
        lemma_macros_names_has(p.macros@, p.macros@.len() as int, mi, ns + si);
        lemma_parse_names_has(all, x, parse_key_spec(x)->0);
    }
    assert forall|si: int|
        0 <= si < mac.simple_steps@.len() && (#[trigger] parse_key_spec(mac.simple_steps@[si].action@)) is Some
        implies output_codes(p).contains(parse_key_spec(mac.simple_steps@[si].action@)->0) by {
        let x = mac.simple_steps@[si].action@;
        assert(step_names(mac)[si] == x);
        lemma_macros_names_has(p.macros@, p.macros@.len() as int, mi, si);
        lemma_parse_names_has(all, x, parse_key_spec(x)->0);
    }
}

} // verus!
