//! How a macro unfolds in time.
//!
//! A macro run is a list of steps (sleep, wait until an offset from the start
//! of the iteration, mark that start, or send a key state).  A loop macro
//! started by a key press also runs its loop events: pre-events before every
//! iteration, cycle events after every Nth iteration, end events when the
//! loop stops.  `MacroRunner` hands out the steps batch by batch; the caller
//! performs them and reports, at each batch, whether the loop was asked to
//! stop.
use vstd::prelude::*;
use crate::config::{AdvancedEvent, AdvancedStep, FireMode, LoopEvent, Macro, Profile, SimpleStep, StepMode};
use crate::keys::{parse_key_spec, KeyTable};

verus! {

/// One thing a macro does.
#[derive(Debug, Clone, Copy, PartialEq, Eq, Structural)]
pub enum MacroStep {
    /// Wait this many milliseconds.
    Sleep(u64),
    /// Wait until this many milliseconds have passed since the last `MarkStart`
    /// (no wait if they already have).
    WaitUntil(u64),
    /// Note the current time as the start of an advanced iteration.
    MarkStart,
    /// Send this key state (1 down, 0 up) followed by a sync event.
    Emit { code: u16, value: i32 },
}

/// A sleep of `ms`, or nothing when it is zero.
pub open spec fn sleep_if(ms: u32) -> Seq<MacroStep> {
    if ms > 0 {
        seq![MacroStep::Sleep(ms as u64)]
    } else {
        seq![]
    }
}

/// The steps of one simple step: press, hold, release (when the key name
/// parses), then the delay after.
pub open spec fn simple_step_steps(s: SimpleStep) -> Seq<MacroStep> {
    let keys = match parse_key_spec(s.action@) {
        Some(k) => seq![MacroStep::Emit { code: k, value: 1 }] + sleep_if(s.hold_ms) + seq![
            MacroStep::Emit { code: k, value: 0 },
        ],
        None => seq![],
    };
    keys + sleep_if(s.delay_after_ms)
}

/// The steps of simple steps, in order.
pub open spec fn simple_body(steps: Seq<SimpleStep>) -> Seq<MacroStep>
    decreases steps.len(),
{
    if steps.len() == 0 {
        seq![]
    } else {
        simple_body(steps.drop_last()) + simple_step_steps(steps.last())
    }
}

/// The key state of an advanced event: 1 for a down event, 0 for an up event.
pub open spec fn event_value(e: AdvancedEvent) -> i32 {
    match e {
        AdvancedEvent::KeyDown | AdvancedEvent::MouseDown => 1,
        AdvancedEvent::KeyUp | AdvancedEvent::MouseUp => 0,
    }
}

/// The steps of one advanced step: wait for its time, then send it (when the
/// key name parses).
pub open spec fn advanced_step_steps(s: AdvancedStep) -> Seq<MacroStep> {
    seq![MacroStep::WaitUntil(s.time_ms as u64)] + match parse_key_spec(s.key@) {
        Some(k) => seq![MacroStep::Emit { code: k, value: event_value(s.event) }],
        None => seq![],
    }
}

/// The steps of advanced steps, in order.
pub open spec fn advanced_steps_spec(steps: Seq<AdvancedStep>) -> Seq<MacroStep>
    decreases steps.len(),
{
    if steps.len() == 0 {
        seq![]
    } else {
        advanced_steps_spec(steps.drop_last()) + advanced_step_steps(steps.last())
    }
}

/// One iteration of a macro's body.
pub open spec fn body_spec(mac: Macro) -> Seq<MacroStep> {
    match mac.mode {
        StepMode::Simple => simple_body(mac.simple_steps@),
        StepMode::Advanced => seq![MacroStep::MarkStart] + advanced_steps_spec(mac.advanced_steps@),
    }
}

/// A macro run once: its start delay, then its body.
pub open spec fn run_once_spec(mac: Macro) -> Seq<MacroStep> {
    sleep_if(mac.start_delay_ms) + body_spec(mac)
}

/// The first macro that a loop event may call: the right identifier, Single
/// fire, and no events of its own.
pub open spec fn event_macro_index(macros: Seq<Macro>, id: u128) -> Option<int>
    decreases macros.len(),
{
    if macros.len() == 0 {
        None
    } else if macros[0].id == id && macros[0].fire == FireMode::Single && macros[0].events@.len() == 0 {
        Some(0)
    } else {
        match event_macro_index(macros.drop_first(), id) {
            Some(i) => Some(i + 1),
            None => None,
        }
    }
}

/// The event macros of a loop macro: (pre-events with their delay, cycle
/// events with their period and delay, end events with their minimum cycle
/// count and delay), each as the macro's position in the profile.
pub ghost struct LoopEvents {
    pub pre: Seq<(int, u32)>,
    pub cycle: Seq<(int, u32, u32)>,
    pub end: Seq<(int, u32, u32)>,
}

/// Sorts a loop macro's events into pre, cycle and end events; events whose
/// macro cannot be called are skipped, and so are orders below -1.
pub open spec fn loop_events_spec(macros: Seq<Macro>, events: Seq<LoopEvent>) -> LoopEvents
    decreases events.len(),
{
    if events.len() == 0 {
        LoopEvents { pre: seq![], cycle: seq![], end: seq![] }
    } else {
        let rest = loop_events_spec(macros, events.drop_last());
        let ev = events.last();
        match event_macro_index(macros, ev.macro_id) {
            None => rest,
            Some(i) => if ev.order == 0 {
                LoopEvents { pre: rest.pre.push((i, ev.delay_ms)), ..rest }
            } else if ev.order == -1 {
                LoopEvents { end: rest.end.push((i, ev.min_loops, ev.delay_ms)), ..rest }
            } else if ev.order > 0 {
                LoopEvents { cycle: rest.cycle.push((i, ev.order as u32, ev.delay_ms)), ..rest }
            } else {
                rest
            },
        }
    }
}

/// The steps of the pre-events: for each, its delay then its macro.
pub open spec fn pre_steps(macros: Seq<Macro>, pre: Seq<(int, u32)>) -> Seq<MacroStep>
    decreases pre.len(),
{
    if pre.len() == 0 {
        seq![]
    } else {
        pre_steps(macros, pre.drop_last()) + sleep_if(pre.last().1) + run_once_spec(macros[pre.last().0])
    }
}

/// Timed event runs: (period or minimum cycles, the steps of delay + macro).
pub open spec fn keyed_steps(macros: Seq<Macro>, evs: Seq<(int, u32, u32)>) -> Seq<(u32, Seq<MacroStep>)> {
    evs.map_values(|e: (int, u32, u32)| (e.1, sleep_if(e.2) + run_once_spec(macros[e.0])))
}

/// The event runs whose period divides the cycle count, in order.
pub open spec fn due_cycle(entries: Seq<(u32, Seq<MacroStep>)>, c: u64) -> Seq<MacroStep>
    decreases entries.len(),
{
    if entries.len() == 0 {
        seq![]
    } else {
        let rest = due_cycle(entries.drop_last(), c);
        let e = entries.last();
        if e.0 > 0 && c % (e.0 as u64) == 0 {
            rest + e.1
        } else {
            rest
        }
    }
}

/// The end-event runs whose minimum cycle count has been reached, in order.
pub open spec fn due_end(entries: Seq<(u32, Seq<MacroStep>)>, c: u64) -> Seq<MacroStep>
    decreases entries.len(),
{
    if entries.len() == 0 {
        seq![]
    } else {
        let rest = due_end(entries.drop_last(), c);
        let e = entries.last();
        if c >= e.0 as u64 {
            rest + e.1
        } else {
            rest
        }
    }
}

/// Where a run stands.
#[derive(Debug, Clone, Copy, PartialEq, Eq, Structural)]
pub enum RunPhase {
    /// Nothing done yet: the start delay comes next.
    Start,
    /// An iteration (pre-events and body) comes next.
    Iterate,
    /// A loop iteration ended: the cycle count goes up and cycle events run.
    AfterBody,
    /// The stop request is checked after the cycle events.
    CheckAfterBody,
    /// A loop without events waits its loop delay.
    Delay,
    /// The stop request is checked after the loop delay.
    CheckAfterDelay,
    /// End events run.
    End,
    /// The run is over.
    Done,
}

/// Everything a run will do, fixed when it starts.
pub ghost struct MacroPlan {
    pub start: Seq<MacroStep>,
    pub pre: Seq<MacroStep>,
    pub body: Seq<MacroStep>,
    pub cycle: Seq<(u32, Seq<MacroStep>)>,
    pub end: Seq<(u32, Seq<MacroStep>)>,
    pub is_loop: bool,
    pub with_events: bool,
    pub loop_delay: u32,
}

/// The plan for the profile's macro at `mi`; loop events take part only when
/// `with_events` is set (a loop started by a key press).
pub open spec fn plan_spec(p: Profile, mi: int, with_events: bool) -> MacroPlan {
    let mac = p.macros@[mi];
    let evs = loop_events_spec(p.macros@, mac.events@);
    MacroPlan {
        start: sleep_if(mac.start_delay_ms),
        pre: if with_events {
            pre_steps(p.macros@, evs.pre)
        } else {
            seq![]
        },
        body: body_spec(mac),
        cycle: if with_events {
            keyed_steps(p.macros@, evs.cycle)
        } else {
            seq![]
        },
        end: if with_events {
            keyed_steps(p.macros@, evs.end)
        } else {
            seq![]
        },
        is_loop: mac.fire == FireMode::Loop,
        with_events,
        loop_delay: mac.loop_delay_ms,
    }
}

/// The state of a run.
pub ghost struct RunnerModel {
    pub plan: MacroPlan,
    pub phase: RunPhase,
    pub cycles: u64,
}

/// The cycle count after one more iteration (it wraps like a `u64` counter).
pub open spec fn next_cycle(c: u64) -> u64 {
    if c == u64::MAX {
        0
    } else {
        (c + 1) as u64
    }
}

/// One move of a run: the next batch of steps and the new state, or `None`
/// when the run is over. `stop` tells whether the loop has been asked to stop.
pub open spec fn runner_step(m: RunnerModel, stop: bool) -> (RunnerModel, Option<Seq<MacroStep>>) {
    let pl = m.plan;
    match m.phase {
        RunPhase::Start => (RunnerModel { phase: RunPhase::Iterate, ..m }, Some(pl.start)),
        RunPhase::Iterate => {
            let next = if !pl.is_loop {
                RunPhase::Done
            } else if pl.with_events {
                RunPhase::AfterBody
            } else {
                RunPhase::Delay
            };
            (RunnerModel { phase: next, ..m }, Some(pl.pre + pl.body))
        },
        RunPhase::AfterBody => {
            let c = next_cycle(m.cycles);
            (RunnerModel { phase: RunPhase::CheckAfterBody, cycles: c, ..m }, Some(due_cycle(pl.cycle, c)))
        },
        RunPhase::CheckAfterBody => if stop {
            (RunnerModel { phase: RunPhase::End, ..m }, Some(sleep_if(pl.loop_delay)))
        } else {
            (RunnerModel { phase: RunPhase::CheckAfterDelay, ..m }, Some(sleep_if(pl.loop_delay)))
        },
        RunPhase::Delay => (RunnerModel { phase: RunPhase::Iterate, ..m }, Some(sleep_if(pl.loop_delay))),
        RunPhase::CheckAfterDelay => if stop {
            (RunnerModel { phase: RunPhase::End, ..m }, Some(seq![]))
        } else {
            (RunnerModel { phase: RunPhase::Iterate, ..m }, Some(seq![]))
        },
        RunPhase::End => (RunnerModel { phase: RunPhase::Done, ..m }, Some(due_end(pl.end, m.cycles))),
        RunPhase::Done => (m, None),
    }
}

// ── Building a run ───────────────────────────────────────────────────────────

fn push_sleep_if(out: &mut Vec<MacroStep>, ms: u32)
    ensures
        final(out)@ == old(out)@ + sleep_if(ms),
{
    if ms > 0 {
        out.push(MacroStep::Sleep(ms as u64));
    }
    assert(out@ =~= old(out)@ + sleep_if(ms));
}

fn push_simple_step(table: &KeyTable, out: &mut Vec<MacroStep>, s: &SimpleStep)
    requires
        table.wf(),
    ensures
        final(out)@ == old(out)@ + simple_step_steps(*s),
{
    match table.parse_key(s.action.as_str()) {
        Some(k) => {
            out.push(MacroStep::Emit { code: k, value: 1 });
            push_sleep_if(out, s.hold_ms);
            out.push(MacroStep::Emit { code: k, value: 0 });
        },
        None => {},
    }
    push_sleep_if(out, s.delay_after_ms);
    assert(out@ =~= old(out)@ + simple_step_steps(*s));
}

fn push_advanced_step(table: &KeyTable, out: &mut Vec<MacroStep>, s: &AdvancedStep)
    requires
        table.wf(),
    ensures
        final(out)@ == old(out)@ + advanced_step_steps(*s),
{
    out.push(MacroStep::WaitUntil(s.time_ms as u64));
    match table.parse_key(s.key.as_str()) {
        Some(k) => {
            let value: i32 = match s.event {
                AdvancedEvent::KeyDown | AdvancedEvent::MouseDown => 1,
                AdvancedEvent::KeyUp | AdvancedEvent::MouseUp => 0,
            };
            out.push(MacroStep::Emit { code: k, value });
        },
        None => {},
    }
    assert(out@ =~= old(out)@ + advanced_step_steps(*s));
}

/// Appends one iteration of a macro's body.
fn push_body(table: &KeyTable, out: &mut Vec<MacroStep>, mac: &Macro)
    requires
        table.wf(),
    ensures
        final(out)@ == old(out)@ + body_spec(*mac),
{
    match mac.mode {
        StepMode::Simple => {
            let mut i: usize = 0;
            while i < mac.simple_steps.len()
                invariant
                    table.wf(),
                    mac.mode == StepMode::Simple,
                    i <= mac.simple_steps@.len(),
                    out@ == old(out)@ + simple_body(mac.simple_steps@.take(i as int)),
                decreases mac.simple_steps@.len() - i,
            {
                push_simple_step(table, out, &mac.simple_steps[i]);
                proof {
                    assert(mac.simple_steps@.take(i + 1).drop_last() =~= mac.simple_steps@.take(i as int));
                }
                i = i + 1;
            }
            proof {
                assert(mac.simple_steps@.take(mac.simple_steps@.len() as int) =~= mac.simple_steps@);
            }
        },
        StepMode::Advanced => {
            out.push(MacroStep::MarkStart);
            let ghost mid = out@;
            let mut i: usize = 0;
            while i < mac.advanced_steps.len()
                invariant
                    table.wf(),
                    mac.mode == StepMode::Advanced,
                    i <= mac.advanced_steps@.len(),
                    out@ == mid + advanced_steps_spec(mac.advanced_steps@.take(i as int)),
                decreases mac.advanced_steps@.len() - i,
            {
                push_advanced_step(table, out, &mac.advanced_steps[i]);
                proof {
                    assert(mac.advanced_steps@.take(i + 1).drop_last() =~= mac.advanced_steps@.take(i as int));
                }
                i = i + 1;
            }
            proof {
                assert(mac.advanced_steps@.take(mac.advanced_steps@.len() as int) =~= mac.advanced_steps@);
                assert(out@ =~= old(out)@ + body_spec(*mac));
            }
        },
    }
}

/// Appends a macro run once: its start delay, then its body.
fn push_run_once(table: &KeyTable, out: &mut Vec<MacroStep>, mac: &Macro)
    requires
        table.wf(),
    ensures
        final(out)@ == old(out)@ + run_once_spec(*mac),
{
    push_sleep_if(out, mac.start_delay_ms);
    push_body(table, out, mac);
    assert(out@ =~= old(out)@ + run_once_spec(*mac));
}

proof fn lemma_event_macro_index(macros: Seq<Macro>, id: u128, i: int)
    requires
        0 <= i < macros.len(),
        macros[i].id == id && macros[i].fire == FireMode::Single && macros[i].events@.len() == 0,
        forall|j: int| 0 <= j < i ==> !(macros[j].id == id && macros[j].fire == FireMode::Single
            && macros[j].events@.len() == 0),
    ensures
        event_macro_index(macros, id) == Some(i),
    decreases i,
{
    if i > 0 {
        assert forall|j: int| 0 <= j < i - 1 implies !(macros.drop_first()[j].id == id
            && macros.drop_first()[j].fire == FireMode::Single && macros.drop_first()[j].events@.len() == 0) by {
            assert(macros.drop_first()[j] == macros[j + 1]);
        }
        lemma_event_macro_index(macros.drop_first(), id, i - 1);
    }
}

proof fn lemma_event_macro_index_none(macros: Seq<Macro>, id: u128)
    requires
        forall|j: int| 0 <= j < macros.len() ==> !(macros[j].id == id && macros[j].fire == FireMode::Single
            && macros[j].events@.len() == 0),
    ensures
        event_macro_index(macros, id) is None,
    decreases macros.len(),
{
    if macros.len() > 0 {
        assert forall|j: int| 0 <= j < macros.len() - 1 implies !(macros.drop_first()[j].id == id
            && macros.drop_first()[j].fire == FireMode::Single && macros.drop_first()[j].events@.len() == 0) by {
            assert(macros.drop_first()[j] == macros[j + 1]);
        }
        lemma_event_macro_index_none(macros.drop_first(), id);
    }
}

/// The first macro that a loop event with this macro identifier may call.
pub fn find_event_macro(macros: &Vec<Macro>, id: u128) -> (r: Option<usize>)
    ensures
        r matches Some(i) ==> event_macro_index(macros@, id) == Some(i as int) && i < macros@.len(),
        r is None ==> event_macro_index(macros@, id) is None,
{
    let mut i: usize = 0;
    while i < macros.len()
        invariant
            i <= macros@.len(),
            forall|j: int| 0 <= j < i ==> !(macros@[j].id == id && macros@[j].fire == FireMode::Single
                && macros@[j].events@.len() == 0),
        decreases macros@.len() - i,
    {
        if macros[i].id == id && macros[i].fire == FireMode::Single && macros[i].events.len() == 0 {
            proof {
                lemma_event_macro_index(macros@, id, i as int);
            }
            return Some(i);
        }
        i = i + 1;
    }
    proof {
        lemma_event_macro_index_none(macros@, id);
    }
    None
}

/// `event_macro_index` names a position in the list.
proof fn lemma_event_macro_bounds(macros: Seq<Macro>, id: u128)
    ensures
        event_macro_index(macros, id) matches Some(i) ==> 0 <= i < macros.len(),
    decreases macros.len(),
{
    if macros.len() > 0 {
        lemma_event_macro_bounds(macros.drop_first(), id);
    }
}

/// Pre-event positions and delays.
pub type PreEvents = Vec<(usize, u32)>;

/// Positions with a period (or minimum cycle count) and a delay.
pub type KeyedEvents = Vec<(usize, u32, u32)>;

/// Views of the exec event lists.
pub open spec fn pre_view(v: Seq<(usize, u32)>) -> Seq<(int, u32)> {
    v.map_values(|e: (usize, u32)| (e.0 as int, e.1))
}

pub open spec fn keyed_view(v: Seq<(usize, u32, u32)>) -> Seq<(int, u32, u32)> {
    v.map_values(|e: (usize, u32, u32)| (e.0 as int, e.1, e.2))
}

/// Sorts a loop macro's events into pre, cycle and end events.
pub fn loop_events(macros: &Vec<Macro>, events: &Vec<LoopEvent>) -> (r: (PreEvents, KeyedEvents, KeyedEvents))
    ensures
        pre_view(r.0@) == loop_events_spec(macros@, events@).pre,
        keyed_view(r.1@) == loop_events_spec(macros@, events@).cycle,
        keyed_view(r.2@) == loop_events_spec(macros@, events@).end,
        forall|k: int| 0 <= k < r.0@.len() ==> (#[trigger] r.0@[k]).0 < macros@.len(),
        forall|k: int| 0 <= k < r.1@.len() ==> (#[trigger] r.1@[k]).0 < macros@.len() && r.1@[k].1 > 0,
        forall|k: int| 0 <= k < r.2@.len() ==> (#[trigger] r.2@[k]).0 < macros@.len(),
{
    let mut pre: PreEvents = Vec::new();
    let mut cycle: KeyedEvents = Vec::new();
    let mut end: KeyedEvents = Vec::new();
    let mut i: usize = 0;
    while i < events.len()
        invariant
            i <= events@.len(),
            pre_view(pre@) == loop_events_spec(macros@, events@.take(i as int)).pre,
            keyed_view(cycle@) == loop_events_spec(macros@, events@.take(i as int)).cycle,
            keyed_view(end@) == loop_events_spec(macros@, events@.take(i as int)).end,
            forall|k: int| 0 <= k < pre@.len() ==> (#[trigger] pre@[k]).0 < macros@.len(),
            forall|k: int| 0 <= k < cycle@.len() ==> (#[trigger] cycle@[k]).0 < macros@.len() && cycle@[k].1 > 0,
            forall|k: int| 0 <= k < end@.len() ==> (#[trigger] end@[k]).0 < macros@.len(),
        decreases events@.len() - i,
    {
        let ev = &events[i];
        proof {
            assert(events@.take(i + 1).drop_last() =~= events@.take(i as int));
            assert(events@.take(i + 1).last() == events@[i as int]);
        }
        match find_event_macro(macros, ev.macro_id) {
            None => {},
            Some(mi) => {
                if ev.order == 0 {
                    pre.push((mi, ev.delay_ms));
                    proof {
                        assert(pre_view(pre@) =~= pre_view(pre@.drop_last()).push((mi as int, ev.delay_ms)));
                    }
                } else if ev.order == -1 {
                    end.push((mi, ev.min_loops, ev.delay_ms));
                    proof {
                        assert(keyed_view(end@) =~= keyed_view(end@.drop_last()).push((mi as int, ev.min_loops, ev.delay_ms)));
                    }
                } else if ev.order > 0 {
                    cycle.push((mi, ev.order as u32, ev.delay_ms));
                    proof {
                        assert(keyed_view(cycle@) =~= keyed_view(cycle@.drop_last()).push((mi as int, ev.order as u32, ev.delay_ms)));
                    }
                }
            },
        }
        i = i + 1;
    }
    proof {
        assert(events@.take(events@.len() as int) =~= events@);
    }
    (pre, cycle, end)
}

/// The run of a macro, handed out batch by batch.
pub struct MacroRunner {
    start: Vec<MacroStep>,
    pre: Vec<MacroStep>,
    body: Vec<MacroStep>,
    cycle: Vec<(u32, Vec<MacroStep>)>,
    end: Vec<(u32, Vec<MacroStep>)>,
    is_loop: bool,
    with_events: bool,
    loop_delay: u32,
    phase: RunPhase,
    cycles: u64,
}

/// The view of keyed step lists.
pub open spec fn keyed_plan_view(v: Seq<(u32, Vec<MacroStep>)>) -> Seq<(u32, Seq<MacroStep>)> {
    v.map_values(|e: (u32, Vec<MacroStep>)| (e.0, e.1@))
}

impl View for MacroRunner {
    type V = RunnerModel;

    closed spec fn view(&self) -> RunnerModel {
        RunnerModel {
            plan: MacroPlan {
                start: self.start@,
                pre: self.pre@,
                body: self.body@,
                cycle: keyed_plan_view(self.cycle@),
                end: keyed_plan_view(self.end@),
                is_loop: self.is_loop,
                with_events: self.with_events,
                loop_delay: self.loop_delay,
            },
            phase: self.phase,
            cycles: self.cycles,
        }
    }
}

fn keyed_plans(table: &KeyTable, macros: &Vec<Macro>, evs: &KeyedEvents) -> (r: Vec<(u32, Vec<MacroStep>)>)
    requires
        table.wf(),
        forall|k: int| 0 <= k < evs@.len() ==> (#[trigger] evs@[k]).0 < macros@.len(),
    ensures
        keyed_plan_view(r@) == keyed_steps(macros@, keyed_view(evs@)),
{
    let mut r: Vec<(u32, Vec<MacroStep>)> = Vec::new();
    let mut i: usize = 0;
    while i < evs.len()
        invariant
            table.wf(),
            forall|k: int| 0 <= k < evs@.len() ==> (#[trigger] evs@[k]).0 < macros@.len(),
            i <= evs@.len(),
            keyed_plan_view(r@) == keyed_steps(macros@, keyed_view(evs@.take(i as int))),
        decreases evs@.len() - i,
    {
        let (mi, key, delay) = evs[i];
        let mut steps: Vec<MacroStep> = Vec::new();
        push_sleep_if(&mut steps, delay);
        push_run_once(table, &mut steps, &macros[mi]);
        r.push((key, steps));
        proof {
            let kv0 = keyed_view(evs@.take(i as int));
            let kv1 = keyed_view(evs@.take(i + 1));
            assert(kv1 =~= kv0.push((mi as int, key, delay)));
            assert(steps@ == sleep_if(delay) + run_once_spec(macros@[mi as int]));
            assert(keyed_steps(macros@, kv1) =~= keyed_steps(macros@, kv0).push((key, sleep_if(delay) + run_once_spec(macros@[mi as int]))));
            assert(keyed_plan_view(r@) =~= keyed_plan_view(r@.drop_last()).push((key, steps@)));
            assert(keyed_plan_view(r@) =~= keyed_steps(macros@, kv1));
        }
        i = i + 1;
    }
    proof {
        assert(evs@.take(evs@.len() as int) =~= evs@);
    }
    r
}

impl MacroRunner {
    /// A run of the profile's macro at `macro_index`; loop events take part
    /// when `with_events` is set.
    pub fn new(table: &KeyTable, profile: &Profile, macro_index: usize, with_events: bool) -> (r: Self)
        requires
            table.wf(),
            macro_index < profile.macros@.len(),
        ensures
            r@ == (RunnerModel { plan: plan_spec(*profile, macro_index as int, with_events), phase: RunPhase::Start, cycles: 0 }),
    {
        let mac = &profile.macros[macro_index];
        let mut start: Vec<MacroStep> = Vec::new();
        push_sleep_if(&mut start, mac.start_delay_ms);
        let mut body: Vec<MacroStep> = Vec::new();
        push_body(table, &mut body, mac);
        let mut pre: Vec<MacroStep> = Vec::new();
        let mut cycle: Vec<(u32, Vec<MacroStep>)> = Vec::new();
        let mut end: Vec<(u32, Vec<MacroStep>)> = Vec::new();
        let ghost evs = loop_events_spec(profile.macros@, mac.events@);
        if with_events {
            let (pre_evs, cycle_evs, end_evs) = loop_events(&profile.macros, &mac.events);
            let mut i: usize = 0;
            while i < pre_evs.len()
                invariant
                    table.wf(),
                    forall|k: int| 0 <= k < pre_evs@.len() ==> (#[trigger] pre_evs@[k]).0 < profile.macros@.len(),
                    i <= pre_evs@.len(),
                    pre@ == pre_steps(profile.macros@, pre_view(pre_evs@.take(i as int))),
                decreases pre_evs@.len() - i,
            {
                let (mi, delay) = pre_evs[i];
                push_sleep_if(&mut pre, delay);
                push_run_once(table, &mut pre, &profile.macros[mi]);
                proof {
                    assert(pre_view(pre_evs@.take(i + 1)) =~= pre_view(pre_evs@.take(i as int)).push((mi as int, delay)));
                    assert(pre_view(pre_evs@.take(i + 1)).drop_last() =~= pre_view(pre_evs@.take(i as int)));
                }
                i = i + 1;
            }
            proof {
                assert(pre_evs@.take(pre_evs@.len() as int) =~= pre_evs@);
            }
            cycle = keyed_plans(table, &profile.macros, &cycle_evs);
            end = keyed_plans(table, &profile.macros, &end_evs);
        }
        let r = MacroRunner {
            start,
            pre,
            body,
            cycle,
            end,
            is_loop: mac.fire == FireMode::Loop,
            with_events,
            loop_delay: mac.loop_delay_ms,
            phase: RunPhase::Start,
            cycles: 0,
        };
        proof {
            if !with_events {
                assert(keyed_plan_view(r.cycle@) =~= Seq::<(u32, Seq<MacroStep>)>::empty());
                assert(keyed_plan_view(r.end@) =~= Seq::<(u32, Seq<MacroStep>)>::empty());
                assert(r.pre@ =~= Seq::<MacroStep>::empty());
            }
        }
        r
    }

    /// How many loop iterations have completed (counted only with loop events).
    pub fn cycles(&self) -> (c: u64)
        ensures
            c == self@.cycles,
    {
        self.cycles
    }

    /// The next batch of steps to perform, or `None` when the run is over.
    /// `stop` tells whether the loop has been asked to stop.
    pub fn next_batch(&mut self, stop: bool) -> (r: Option<Vec<MacroStep>>)
        ensures
            final(self)@ == runner_step(old(self)@, stop).0,
            r matches Some(v) ==> runner_step(old(self)@, stop).1 == Some(v@),
            r is None ==> runner_step(old(self)@, stop).1 is None,
    {
        match self.phase {
            RunPhase::Start => {
                self.phase = RunPhase::Iterate;
                Some(self.start.clone())
            },
            RunPhase::Iterate => {
                self.phase = if !self.is_loop {
                    RunPhase::Done
                } else if self.with_events {
                    RunPhase::AfterBody
                } else {
                    RunPhase::Delay
                };
                let mut out = self.pre.clone();
                let mut i: usize = 0;
                while i < self.body.len()
                    invariant
                        i <= self.body@.len(),
                        out@ == self.pre@ + self.body@.take(i as int),
                    decreases self.body@.len() - i,
                {
                    out.push(self.body[i]);
                    proof {
                        assert(self.body@.take(i + 1) =~= self.body@.take(i as int).push(self.body@[i as int]));
                    }
                    i = i + 1;
                }
                proof {
                    assert(self.body@.take(self.body@.len() as int) =~= self.body@);
                }
                Some(out)
            },
            RunPhase::AfterBody => {
                self.cycles = if self.cycles == u64::MAX { 0 } else { self.cycles + 1 };
                self.phase = RunPhase::CheckAfterBody;
                let c = self.cycles;
                let mut out: Vec<MacroStep> = Vec::new();
                let mut i: usize = 0;
                while i < self.cycle.len()
                    invariant
                        i <= self.cycle@.len(),
                        out@ == due_cycle(keyed_plan_view(self.cycle@.take(i as int)), c),
                    decreases self.cycle@.len() - i,
                {
                    let order = self.cycle[i].0;
                    proof {
                        assert(keyed_plan_view(self.cycle@.take(i + 1)).drop_last() =~= keyed_plan_view(self.cycle@.take(i as int)));
                        assert(keyed_plan_view(self.cycle@.take(i + 1)).last() == (order, self.cycle@[i as int].1@));
                    }
                    if order > 0 && c % (order as u64) == 0 {
                        let steps = &self.cycle[i].1;
                        let mut j: usize = 0;
                        let ghost before = out@;
                        while j < steps.len()
                            invariant
                                j <= steps@.len(),
                                out@ == before + steps@.take(j as int),
                            decreases steps@.len() - j,
                        {
                            out.push(steps[j]);
                            proof {
                                assert(steps@.take(j + 1) =~= steps@.take(j as int).push(steps@[j as int]));
                            }
                            j = j + 1;
                        }
                        proof {
                            assert(steps@.take(steps@.len() as int) =~= steps@);
                        }
                    }
                    i = i + 1;
                }
                proof {
                    assert(self.cycle@.take(self.cycle@.len() as int) =~= self.cycle@);
                }
                Some(out)
            },
            RunPhase::CheckAfterBody => {
                self.phase = if stop { RunPhase::End } else { RunPhase::CheckAfterDelay };
                let mut out: Vec<MacroStep> = Vec::new();
                push_sleep_if(&mut out, self.loop_delay);
                Some(out)
            },
            RunPhase::Delay => {
                self.phase = RunPhase::Iterate;
                let mut out: Vec<MacroStep> = Vec::new();
                push_sleep_if(&mut out, self.loop_delay);
                Some(out)
            },
            RunPhase::CheckAfterDelay => {
                self.phase = if stop { RunPhase::End } else { RunPhase::Iterate };
                let out: Vec<MacroStep> = Vec::new();
                proof {
                    assert(out@ =~= Seq::<MacroStep>::empty());
                }
                Some(out)
            },
            RunPhase::End => {
                self.phase = RunPhase::Done;
                let c = self.cycles;
                let mut out: Vec<MacroStep> = Vec::new();
                let mut i: usize = 0;
                while i < self.end.len()
                    invariant
                        i <= self.end@.len(),
                        out@ == due_end(keyed_plan_view(self.end@.take(i as int)), c),
                    decreases self.end@.len() - i,
                {
                    let min = self.end[i].0;
                    proof {
                        assert(keyed_plan_view(self.end@.take(i + 1)).drop_last() =~= keyed_plan_view(self.end@.take(i as int)));
                        assert(keyed_plan_view(self.end@.take(i + 1)).last() == (min, self.end@[i as int].1@));
                    }
                    if c >= min as u64 {
                        let steps = &self.end[i].1;
                        let mut j: usize = 0;
                        let ghost before = out@;
                        while j < steps.len()
                            invariant
                                j <= steps@.len(),
                                out@ == before + steps@.take(j as int),
                            decreases steps@.len() - j,
                        {
                            out.push(steps[j]);
                            proof {
                                assert(steps@.take(j + 1) =~= steps@.take(j as int).push(steps@[j as int]));
                            }
                            j = j + 1;
                        }
                        proof {
                            assert(steps@.take(steps@.len() as int) =~= steps@);
                        }
                    }
                    i = i + 1;
                }
                proof {
                    assert(self.end@.take(self.end@.len() as int) =~= self.end@);
                }
                Some(out)
            },
            RunPhase::Done => None,
        }
    }
}

} // verus!
