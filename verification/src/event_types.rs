//! Events as the monitor shows them, and the elapsed-time stamp they carry.
use vstd::prelude::*;
use crate::text::{dec_digits, push_decimal, string_from_chars, zero_pad};
use std::time::Duration;

verus! {

/// An input event as the monitor shows it.
pub struct DisplayEvent {
    pub elapsed: Duration,
    pub device_name: String,
    pub event_type: &'static str,
    pub code_name: String,
    pub value_str: String,
    pub highlight: EventHighlight,
}

/// How the monitor marks an event.
#[derive(Clone, Copy, Debug, PartialEq, Eq, Structural)]
pub enum EventHighlight {
    Normal,
    /// Key code unknown to the kernel — raw vendor scan code; interesting for device DB
    Unknown,
    /// Named gaming key (KEY_MACRO*, BTN_TRIGGER_HAPPY*, KEY_F13-F24)
    Gaming,
    Sync,
}

impl Clone for DisplayEvent {
    fn clone(&self) -> (r: Self)
        ensures
            r.elapsed == self.elapsed,
            r.device_name@ == self.device_name@,
            r.event_type@ == self.event_type@,
            r.code_name@ == self.code_name@,
            r.value_str@ == self.value_str@,
            r.highlight == self.highlight,
    {
        DisplayEvent {
            elapsed: self.elapsed,
            device_name: self.device_name.clone(),
            event_type: self.event_type,
            code_name: self.code_name.clone(),
            value_str: self.value_str.clone(),
            highlight: self.highlight,
        }
    }
}

/// The whole nanoseconds in a duration, as `Duration::as_nanos` counts
/// them; it depends on the duration alone.
pub uninterp spec fn duration_nanos(d: Duration) -> u128;

/// The nanoseconds in `Duration::MAX` (`u64::MAX` seconds and 999 999 999
/// nanoseconds).
pub const MAX_DURATION_NANOS: u128 = 18_446_744_073_709_551_615_999_999_999;

/// `Duration::as_nanos`: no duration is longer than `Duration::MAX`.
#[verifier::external_body]
pub(crate) fn as_nanos(d: Duration) -> (r: u128)
    ensures
        r == duration_nanos(d),
        r <= MAX_DURATION_NANOS,
{
    d.as_nanos()
}

/// The whole milliseconds in a duration.
pub open spec fn duration_millis(d: Duration) -> u128 {
    duration_nanos(d) / 1_000_000
}

/// `mm:ss.mmm` for a time in milliseconds: minutes (at least two digits),
/// seconds and milliseconds, zero-padded.
pub open spec fn elapsed_text(ms: nat) -> Seq<char> {
    zero_pad(dec_digits(ms / 60_000), 2) + seq![':'] + zero_pad(dec_digits((ms % 60_000) / 1000), 2) + seq!['.']
        + zero_pad(dec_digits(ms % 1000), 3)
}

/// Formats a time in milliseconds as `mm:ss.mmm`.
pub fn format_millis(ms: u128) -> (r: String)
    ensures
        r@ == elapsed_text(ms as nat),
{
    let mut out: Vec<char> = Vec::new();
    push_decimal(&mut out, ms / 60_000, 2);
    out.push(':');
    push_decimal(&mut out, (ms % 60_000) / 1000, 2);
    out.push('.');
    push_decimal(&mut out, ms % 1000, 3);
    assert(out@ =~= elapsed_text(ms as nat));
    string_from_chars(out.as_slice())
}

impl DisplayEvent {
    /// The elapsed time as `mm:ss.mmm`.
    pub fn format_elapsed(d: Duration) -> (r: String)
        ensures
            r@ == elapsed_text(duration_millis(d) as nat),
    {
        format_millis(as_nanos(d) / 1_000_000)
    }
}

} // verus!
