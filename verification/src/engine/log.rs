//! The engine's diagnostic log: a bounded list of lines, written only while
//! logging is switched on.
use vstd::prelude::*;
use crate::config::strings_view;
use crate::constants::ENGINE_LOG_CAPACITY;
use crate::text::{dec_digits, extend_chars, extend_str, push_decimal, string_from_chars, zero_pad};

verus! {

/// The diagnostic log.
pub struct EngineLog {
    enabled: bool,
    entries: Vec<String>,
}

impl View for EngineLog {
    /// (logging switched on, the lines, oldest first)
    type V = (bool, Seq<Seq<char>>);

    closed spec fn view(&self) -> (bool, Seq<Seq<char>>) {
        (self.enabled, strings_view(self.entries@))
    }
}

/// The lines after `msg` is logged: when the log is full the oldest line goes.
pub open spec fn logged(lines: Seq<Seq<char>>, msg: Seq<char>) -> Seq<Seq<char>> {
    if lines.len() >= ENGINE_LOG_CAPACITY {
        lines.drop_first().push(msg)
    } else {
        lines.push(msg)
    }
}

impl EngineLog {
    /// The log never holds more than ENGINE_LOG_CAPACITY lines.
    pub closed spec fn wf(&self) -> bool {
        self.entries@.len() <= ENGINE_LOG_CAPACITY
    }

    /// An empty log with logging switched off.
    pub fn new() -> (l: Self)
        ensures
            l.wf(),
            l@ == (false, Seq::<Seq<char>>::empty()),
    {
        let l = EngineLog { enabled: false, entries: Vec::new() };
        assert(strings_view(l.entries@) =~= Seq::<Seq<char>>::empty());
        l
    }

    /// A well-formed log never holds more than ENGINE_LOG_CAPACITY lines.
    pub proof fn lemma_wf_bounded(&self)
        requires
            self.wf(),
        ensures
            self@.1.len() <= ENGINE_LOG_CAPACITY,
    {
    }
}

/// Switches logging on or off; the lines stay.
pub fn set_engine_logging(log: &mut EngineLog, enabled: bool)
    requires
        old(log).wf(),
    ensures
        final(log).wf(),
        final(log)@ == (enabled, old(log)@.1),
{
    log.enabled = enabled;
}

/// Logs a line if logging is on.
pub fn engine_log(log: &mut EngineLog, msg: String)
    requires
        old(log).wf(),
    ensures
        final(log).wf(),
        final(log)@.0 == old(log)@.0,
        final(log)@.1 == if old(log)@.0 {
            logged(old(log)@.1, msg@)
        } else {
            old(log)@.1
        },
        final(log)@.1.len() <= ENGINE_LOG_CAPACITY,
{
    if log.enabled {
        let ghost before = log.entries@;
        if log.entries.len() >= ENGINE_LOG_CAPACITY {
            log.entries.remove(0);
            proof {
                assert(strings_view(log.entries@) =~= strings_view(before).drop_first());
            }
        }
        let ghost mid = log.entries@;
        let m = msg;
        log.entries.push(m);
        proof {
            assert(strings_view(log.entries@) =~= strings_view(mid).push(m@));
        }
    }
}

/// Takes every line out of the log, oldest first.
pub fn drain_engine_log(log: &mut EngineLog) -> (r: Vec<String>)
    requires
        old(log).wf(),
    ensures
        final(log).wf(),
        strings_view(r@) == old(log)@.1,
        final(log)@ == (old(log)@.0, Seq::<Seq<char>>::empty()),
{
    let mut r: Vec<String> = Vec::new();
    std::mem::swap(&mut r, &mut log.entries);
    assert(strings_view(log.entries@) =~= Seq::<Seq<char>>::empty());
    r
}

/// Removes every line.
pub fn clear_engine_log(log: &mut EngineLog)
    requires
        old(log).wf(),
    ensures
        final(log).wf(),
        final(log)@ == (old(log)@.0, Seq::<Seq<char>>::empty()),
{
    log.entries.clear();
    assert(strings_view(log.entries@) =~= Seq::<Seq<char>>::empty());
}

/// `s` right-aligned with spaces to `width` characters (`{:>w}`).
pub open spec fn space_pad(s: Seq<char>, width: nat) -> Seq<char> {
    if s.len() >= width {
        s
    } else {
        Seq::new((width - s.len()) as nat, |i: int| ' ') + s
    }
}

/// A log line: `[` the milliseconds right-aligned in eight columns `ms] ` then the message.
pub open spec fn log_line_spec(ms: u64, msg: Seq<char>) -> Seq<char> {
    "["@ + space_pad(dec_digits(ms as nat), 8) + "ms] "@ + msg
}

/// Formats a log line (`format!("[{:>8}ms] {}", ms, msg)`).
pub fn log_line(ms: u64, msg: &str) -> (r: String)
    ensures
        r@ == log_line_spec(ms, msg@),
{
    let mut digits: Vec<char> = Vec::new();
    push_decimal(&mut digits, ms as u128, 0);
    proof {
        assert(zero_pad(dec_digits(ms as nat), 0) == dec_digits(ms as nat));
        assert(digits@ =~= dec_digits(ms as nat));
    }
    let mut out: Vec<char> = Vec::new();
    extend_str(&mut out, "[");
    let mut pad: usize = 0;
    let n = digits.len();
    while pad + n < 8
        invariant
            out@ == "["@ + Seq::new(pad as nat, |i: int| ' '),
            pad + n <= 8 || pad == 0,
        decreases 8 - pad - n,
    {
        out.push(' ');
        proof {
            assert(Seq::new((pad + 1) as nat, |i: int| ' ') =~= Seq::new(pad as nat, |i: int| ' ').push(' '));
            assert(out@ =~= "["@ + Seq::new((pad + 1) as nat, |i: int| ' '));
        }
        pad = pad + 1;
    }
    proof {
        if n >= 8 {
            assert(Seq::new(0nat, |i: int| ' ') =~= Seq::<char>::empty());
        }
        assert("["@ + Seq::new(pad as nat, |i: int| ' ') + digits@ =~= "["@ + space_pad(dec_digits(ms as nat), 8));
    }
    extend_chars(&mut out, digits.as_slice());
    extend_str(&mut out, "ms] ");
    extend_str(&mut out, msg);
    proof {
        assert(out@ =~= log_line_spec(ms, msg@));
    }
    string_from_chars(out.as_slice())
}

} // verus!
