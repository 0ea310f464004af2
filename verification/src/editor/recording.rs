//! Learning a key from the devices, and recording a macro from them.
use vstd::prelude::*;
use crate::config::{AdvancedEvent, AdvancedStep, SimpleStep};
use crate::engine::schedule::{advanced_steps_spec, MacroStep};
use crate::keys::parse_key_spec;
use crate::text::{chars_eq, chars_of, extend_chars, starts_with, string_from_chars};

verus! {

// ── Macro recording ───────────────────────────────────────────────────────────

/// What a recording reader sends: a key going down or up, with its time
/// since the recording started, or the request to stop.
pub enum RecordMsg {
    Key { name: String, pressed: bool, elapsed_ms: u32 },
    Stop,
}

/// A key event caught while recording.
pub struct RecordedKey {
    pub name: String,
    pub pressed: bool,
    pub elapsed_ms: u32,
}

/// What a key event becomes during recording: auto-repeat (any value but 0
/// and 1) is skipped, pressing Escape stops, every other press or release is
/// recorded.
pub open spec fn record_spec(name: Seq<char>, value: i32) -> Option<Option<bool>> {
    if value != 0 && value != 1 {
        None
    } else if name == "KEY_ESC"@ && value == 1 {
        Some(None)
    } else {
        Some(Some(value == 1))
    }
}

/// Turns a key event (evdev name, value, time) into the message to send:
/// `None` to skip it.
pub fn record_event(name: String, value: i32, elapsed_ms: u32) -> (r: Option<RecordMsg>)
    ensures
        match record_spec(name@, value) {
            None => r is None,
            Some(None) => r matches Some(RecordMsg::Stop),
            Some(Some(p)) => r matches Some(RecordMsg::Key { name: n, pressed, elapsed_ms: t }) && n@ == name@
                && pressed == p && t == elapsed_ms,
        },
{
    if value != 0 && value != 1 {
        return None;
    }
    let cs = chars_of(name.as_str());
    let esc = chars_of("KEY_ESC");
    if chars_eq(cs.as_slice(), esc.as_slice()) && value == 1 {
        return Some(RecordMsg::Stop);
    }
    Some(RecordMsg::Key { name, pressed: value == 1, elapsed_ms })
}

/// The pressed keys of a recording, in order.
pub open spec fn presses(buf: Seq<RecordedKey>) -> Seq<RecordedKey>
    decreases buf.len(),
{
    if buf.len() == 0 {
        seq![]
    } else if buf.last().pressed {
        presses(buf.drop_last()).push(buf.last())
    } else {
        presses(buf.drop_last())
    }
}

/// The time from press `i` to the next press (0 after the last one; never
/// negative).
pub open spec fn delay_after(ps: Seq<RecordedKey>, i: int) -> u32 {
    if i + 1 < ps.len() {
        if ps[i + 1].elapsed_ms >= ps[i].elapsed_ms {
            (ps[i + 1].elapsed_ms - ps[i].elapsed_ms) as u32
        } else {
            0
        }
    } else {
        0
    }
}

/// Simple steps from a recording: one per press, no hold, waiting until the
/// next press.
pub open spec fn simple_steps_match(r: Seq<SimpleStep>, buf: Seq<RecordedKey>) -> bool {
    let ps = presses(buf);
    &&& r.len() == ps.len()
    &&& forall|i: int|
        0 <= i < r.len() ==> (#[trigger] r[i]).action@ == ps[i].name@ && r[i].hold_ms == 0 && r[i].delay_after_ms
            == delay_after(ps, i)
}

/// Converts a recording into simple steps.
pub fn buf_to_simple_steps(buf: &[RecordedKey]) -> (r: Vec<SimpleStep>)
    ensures
        simple_steps_match(r@, buf@),
{
    let mut idx: Vec<usize> = Vec::new();
    let mut k: usize = 0;
    while k < buf.len()
        invariant
            k <= buf@.len(),
            idx@.len() == presses(buf@.take(k as int)).len(),
            forall|j: int| 0 <= j < idx@.len() ==> (#[trigger] idx@[j]) < k && buf@[idx@[j] as int] == presses(
                buf@.take(k as int),
            )[j],
        decreases buf@.len() - k,
    {
        proof {
            let t = buf@.take(k + 1);
            assert(t.drop_last() =~= buf@.take(k as int));
            assert(t.last() == buf@[k as int]);
        }
        if buf[k].pressed {
            idx.push(k);
        }
        k = k + 1;
    }
    proof {
        assert(buf@.take(buf@.len() as int) =~= buf@);
    }
    let ghost ps = presses(buf@);
    let mut r: Vec<SimpleStep> = Vec::new();
    let mut i: usize = 0;
    while i < idx.len()
        invariant
            i <= idx@.len(),
            idx@.len() == ps.len(),
            ps == presses(buf@),
            forall|j: int| 0 <= j < idx@.len() ==> (#[trigger] idx@[j]) < buf@.len() && buf@[idx@[j] as int] == ps[j],
            r@.len() == i,
            forall|j: int|
                0 <= j < i ==> (#[trigger] r@[j]).action@ == ps[j].name@ && r@[j].hold_ms == 0 && r@[j].delay_after_ms
                    == delay_after(ps, j),
        decreases idx@.len() - i,
    {
        let cur = &buf[idx[i]];
        let delay: u32 = if i + 1 < idx.len() {
            let next = &buf[idx[i + 1]];
            if next.elapsed_ms >= cur.elapsed_ms {
                next.elapsed_ms - cur.elapsed_ms
            } else {
                0
            }
        } else {
            0
        };
        assert(cur == ps[i as int]);
        r.push(SimpleStep { action: cur.name.clone(), hold_ms: 0, delay_after_ms: delay });
        i = i + 1;
    }
    r
}

/// The advanced event of a recorded key: `BTN_` names are mouse buttons.
pub open spec fn advanced_event_of(k: RecordedKey) -> AdvancedEvent {
    let mouse = "BTN_"@.is_prefix_of(k.name@);
    if k.pressed {
        if mouse {
            AdvancedEvent::MouseDown
        } else {
            AdvancedEvent::KeyDown
        }
    } else {
        if mouse {
            AdvancedEvent::MouseUp
        } else {
            AdvancedEvent::KeyUp
        }
    }
}

/// Advanced steps from a recording: one per event, at its recorded time.
pub open spec fn advanced_steps_match(r: Seq<AdvancedStep>, buf: Seq<RecordedKey>) -> bool {
    &&& r.len() == buf.len()
    &&& forall|i: int|
        0 <= i < r.len() ==> (#[trigger] r[i]).event == advanced_event_of(buf[i]) && r[i].key@ == buf[i].name@
            && r[i].time_ms == buf[i].elapsed_ms
}

/// Converts a recording into advanced steps.
pub fn buf_to_advanced_steps(buf: &[RecordedKey]) -> (r: Vec<AdvancedStep>)
    ensures
        advanced_steps_match(r@, buf@),
{
    let btn = chars_of("BTN_");
    let mut r: Vec<AdvancedStep> = Vec::new();
    let mut i: usize = 0;
    while i < buf.len()
        invariant
            i <= buf@.len(),
            btn@ == "BTN_"@,
            r@.len() == i,
            forall|j: int|
                0 <= j < i ==> (#[trigger] r@[j]).event == advanced_event_of(buf@[j]) && r@[j].key@ == buf@[j].name@
                    && r@[j].time_ms == buf@[j].elapsed_ms,
        decreases buf@.len() - i,
    {
        let k = &buf[i];
        let name = chars_of(k.name.as_str());
        let mouse = starts_with(name.as_slice(), btn.as_slice());
        let event = if k.pressed {
            if mouse {
                AdvancedEvent::MouseDown
            } else {
                AdvancedEvent::KeyDown
            }
        } else {
            if mouse {
                AdvancedEvent::MouseUp
            } else {
                AdvancedEvent::KeyUp
            }
        };
        r.push(AdvancedStep { event, key: k.name.clone(), time_ms: k.elapsed_ms });
        i = i + 1;
    }
    r
}

/// What replaying a recording sends: for each recorded key in turn, a wait
/// until its recorded time, then (when its name resolves) the key going down
/// if it was pressed and up if it was released.
pub open spec fn replay_spec(buf: Seq<RecordedKey>) -> Seq<MacroStep>
    decreases buf.len(),
{
    if buf.len() == 0 {
        seq![]
    } else {
        let k = buf.last();
        replay_spec(buf.drop_last()) + seq![MacroStep::WaitUntil(k.elapsed_ms as u64)] + match parse_key_spec(k.name@) {
            Some(code) => seq![MacroStep::Emit { code, value: if k.pressed { 1i32 } else { 0i32 } }],
            None => seq![],
        }
    }
}

/// A recording kept as advanced steps replays exactly what was recorded:
/// every key at its recorded time and in its recorded direction, in order.
pub proof fn law_recording_replays(steps: Seq<AdvancedStep>, buf: Seq<RecordedKey>)
    requires
        advanced_steps_match(steps, buf),
    ensures
        advanced_steps_spec(steps) == replay_spec(buf),
    decreases buf.len(),
{
    if buf.len() > 0 {
        let n = buf.len() - 1;
        assert(advanced_steps_match(steps.drop_last(), buf.drop_last())) by {
            assert forall|i: int| 0 <= i < steps.drop_last().len() implies (#[trigger] steps.drop_last()[i]).event
                == advanced_event_of(buf.drop_last()[i]) && steps.drop_last()[i].key@ == buf.drop_last()[i].name@
                && steps.drop_last()[i].time_ms == buf.drop_last()[i].elapsed_ms by {
                assert(steps[i].event == advanced_event_of(buf[i]));
            }
        }
        law_recording_replays(steps.drop_last(), buf.drop_last());
        assert(steps[n].event == advanced_event_of(buf[n]));
        assert(steps.last() == steps[n]);
        assert(buf.last() == buf[n]);
    }
}

// ── Key learning ──────────────────────────────────────────────────────────────

/// The held modifiers without any copy of `name`.
pub open spec fn without(held: Seq<Seq<char>>, name: Seq<char>) -> Seq<Seq<char>>
    decreases held.len(),
{
    if held.len() == 0 {
        seq![]
    } else if held.last() == name {
        without(held.drop_last(), name)
    } else {
        without(held.drop_last(), name).push(held.last())
    }
}

/// The names joined with `'+'` between them.
pub open spec fn join_plus(parts: Seq<Seq<char>>) -> Seq<char>
    decreases parts.len(),
{
    if parts.len() == 0 {
        seq![]
    } else if parts.len() == 1 {
        parts[0]
    } else {
        join_plus(parts.drop_last()) + seq!['+'] + parts.last()
    }
}

/// One key event while learning a key: a modifier of the profile is tracked
/// as held (press) or released (release) and never ends the learning; a
/// press of another key after the opening gate ends it, with the held
/// modifiers and the key joined by `'+'`.
pub open spec fn learn_spec(held: Seq<Seq<char>>, mod_keys: Seq<Seq<char>>, name: Seq<char>, value: i32, gate_open: bool) -> (
    Seq<Seq<char>>,
    Option<Seq<char>>,
) {
    if mod_keys.contains(name) {
        if value == 1 {
            (if held.contains(name) {
                held
            } else {
                held.push(name)
            }, None)
        } else if value == 0 {
            (without(held, name), None)
        } else {
            (held, None)
        }
    } else if value == 1 && gate_open {
        (held, Some(join_plus(held.push(name))))
    } else {
        (held, None)
    }
}

pub(crate) fn contains_chars_seq(v: &Vec<Vec<char>>, x: &[char]) -> (r: bool)
    ensures
        r == v@.map_values(|c: Vec<char>| c@).contains(x@),
{
    let ghost vv = v@.map_values(|c: Vec<char>| c@);
    let mut j: usize = 0;
    while j < v.len()
        invariant
            j <= v@.len(),
            vv == v@.map_values(|c: Vec<char>| c@),
            forall|q: int| 0 <= q < j ==> vv[q] != x@,
        decreases v@.len() - j,
    {
        if chars_eq(v[j].as_slice(), x) {
            assert(vv[j as int] == x@);
            return true;
        }
        j = j + 1;
    }
    false
}

/// The characters of each list entry.
pub open spec fn chars_view(v: Seq<Vec<char>>) -> Seq<Seq<char>> {
    v.map_values(|c: Vec<char>| c@)
}

/// Handles one key event of key learning, updating the held modifiers;
/// returns the learned key when learning ends.
pub fn learn_key_event(held: &mut Vec<Vec<char>>, mod_keys: &Vec<Vec<char>>, name: &[char], value: i32, gate_open: bool) -> (r: Option<String>)
    ensures
        (chars_view(final(held)@), match r {
            Some(s) => Some(s@),
            None => None,
        }) == learn_spec(chars_view(old(held)@), chars_view(mod_keys@), name@, value, gate_open),
{
    let ghost h0 = chars_view(held@);
    if contains_chars_seq(mod_keys, name) {
        if value == 1 {
            if !contains_chars_seq(held, name) {
                let mut n: Vec<char> = Vec::new();
                extend_chars(&mut n, name);
                held.push(n);
                proof {
                    assert(chars_view(held@) =~= h0.push(name@));
                }
            }
        } else if value == 0 {
            let mut kept: Vec<Vec<char>> = Vec::new();
            let mut k: usize = 0;
            while k < held.len()
                invariant
                    k <= held@.len(),
                    h0 == chars_view(held@),
                    chars_view(kept@) == without(h0.take(k as int), name@),
                decreases held@.len() - k,
            {
                proof {
                    let t = h0.take(k + 1);
                    assert(t.drop_last() =~= h0.take(k as int));
                    assert(t.last() == held@[k as int]@);
                }
                if !chars_eq(held[k].as_slice(), name) {
                    let ghost before = chars_view(kept@);
                    let mut c: Vec<char> = Vec::new();
                    extend_chars(&mut c, held[k].as_slice());
                    kept.push(c);
                    proof {
                        assert(chars_view(kept@) =~= before.push(held@[k as int]@));
                    }
                }
                k = k + 1;
            }
            proof {
                assert(h0.take(h0.len() as int) =~= h0);
            }
            *held = kept;
        }
        return None;
    }
    if value == 1 && gate_open {
        let mut out: Vec<char> = Vec::new();
        let mut k: usize = 0;
        while k < held.len()
            invariant
                k <= held@.len(),
                h0 == chars_view(held@),
                k > 0 ==> out@ == join_plus(h0.take(k as int)),
                k == 0 ==> out@.len() == 0,
            decreases held@.len() - k,
        {
            proof {
                let t = h0.take(k + 1);
                assert(t.drop_last() =~= h0.take(k as int));
            }
            if k > 0 {
                out.push('+');
            }
            extend_chars(&mut out, held[k].as_slice());
            proof {
                let t = h0.take(k + 1);
                if k == 0 {
                    assert(out@ =~= join_plus(t));
                } else {
                    assert(out@ =~= join_plus(t));
                }
            }
            k = k + 1;
        }
        if k > 0 {
            out.push('+');
        }
        extend_chars(&mut out, name);
        proof {
            let all = h0.push(name@);
            assert(all.drop_last() =~= h0);
            assert(h0.take(h0.len() as int) =~= h0);
            assert(out@ =~= join_plus(all));
        }
        return Some(string_from_chars(out.as_slice()));
    }
    None
}

} // verus!
