//! Calendar timestamps at second precision, and the wall clock that
//! produces them.
//!
//! A reading's timestamp is held as plain year, month, day, hour, minute and
//! second fields so that formatting can be specified exactly; only the call
//! that asks the system for the current instant is trusted.

use crate::digits::{digit_byte, is_digit, pad2, pad4, push_pad2, push_pad4};
use vstd::prelude::*;

verus! {

/// The byte commonly written `-`.
pub const DASH: u8 = 0x2D;

/// The space byte.
pub const SPACE: u8 = 0x20;

/// The byte commonly written `:`.
pub const COLON: u8 = 0x3A;

/// A UTC instant at second precision.
#[derive(Clone, Copy, Debug, PartialEq, Eq, Structural)]
pub struct Timestamp {
    pub year: u16,
    pub month: u8,
    pub day: u8,
    pub hour: u8,
    pub minute: u8,
    pub second: u8,
}

impl Timestamp {
    /// Every field within its calendar range.
    pub open spec fn wf(self) -> bool {
        &&& self.year <= 9999
        &&& 1 <= self.month <= 12
        &&& 1 <= self.day <= 31
        &&& self.hour <= 23
        &&& self.minute <= 59
        &&& self.second <= 59
    }
}

/// A timestamp rendered as `YYYY-MM-DD HH:MM:SS`.
pub open spec fn ts_bytes(t: Timestamp) -> Seq<u8> {
    pad4(t.year as nat) + seq![DASH] + pad2(t.month as nat) + seq![DASH] + pad2(t.day as nat)
        + seq![SPACE] + pad2(t.hour as nat) + seq![COLON] + pad2(t.minute as nat) + seq![COLON]
        + pad2(t.second as nat)
}

/// The time of day alone, rendered as `HH:MM:SS`.
pub open spec fn clock_bytes(t: Timestamp) -> Seq<u8> {
    pad2(t.hour as nat) + seq![COLON] + pad2(t.minute as nat) + seq![COLON] + pad2(
        t.second as nat,
    )
}

/// Appends the timestamp rendered as `YYYY-MM-DD HH:MM:SS`.
pub fn push_timestamp(out: &mut Vec<u8>, t: &Timestamp)
    requires
        t.wf(),
    ensures
        final(out)@ == old(out)@ + ts_bytes(*t),
{
    push_pad4(out, t.year);
    out.push(DASH);
    push_pad2(out, t.month);
    out.push(DASH);
    push_pad2(out, t.day);
    out.push(SPACE);
    push_pad2(out, t.hour);
    out.push(COLON);
    push_pad2(out, t.minute);
    out.push(COLON);
    push_pad2(out, t.second);
    assert(out@ =~= old(out)@ + ts_bytes(*t));
}

/// Appends the time of day rendered as `HH:MM:SS`.
pub fn push_clock(out: &mut Vec<u8>, t: &Timestamp)
    requires
        t.wf(),
    ensures
        final(out)@ == old(out)@ + clock_bytes(*t),
{
    push_pad2(out, t.hour);
    out.push(COLON);
    push_pad2(out, t.minute);
    out.push(COLON);
    push_pad2(out, t.second);
    assert(out@ =~= old(out)@ + clock_bytes(*t));
}

/// A rendered timestamp consists of digits, dashes, one space and colons:
/// in particular it holds no field or row delimiter.
pub proof fn lemma_ts_bytes_plain(t: Timestamp)
    ensures
        forall|i: int|
            0 <= i < ts_bytes(t).len() ==> {
                let b = #[trigger] ts_bytes(t)[i];
                is_digit(b) || b == DASH || b == SPACE || b == COLON
            },
{
    let s = ts_bytes(t);
    assert forall|i: int| 0 <= i < s.len() implies {
        let b = #[trigger] s[i];
        is_digit(b) || b == DASH || b == SPACE || b == COLON
    } by {
        assert(s.len() == 19);
    }
}

/// The instant the system clock reports, field by field.
pub struct RawInstant {
    pub year: i32,
    pub month: u8,
    pub day: u8,
    pub hour: u8,
    pub minute: u8,
    pub second: u8,
}

/// Relies on `time::UtcDateTime::now` and its component accessors `year`,
/// `month` (through `u8::from`), `day`, `hour`, `minute` and `second`: the
/// crate documents the component ranges stated below, and its dates span
/// the years -9999 to 9999.  `now` itself panics, in the crate's own
/// conversion from the system time, on a host clock set outside that
/// span; it takes no argument under which that could be ruled out here.
#[verifier::external_body]
fn now_utc() -> (r: RawInstant)
    ensures
        -9999 <= r.year <= 9999,
        1 <= r.month <= 12,
        1 <= r.day <= 31,
        r.hour <= 23,
        r.minute <= 59,
        r.second <= 59,
{
    let n = time::UtcDateTime::now();
    RawInstant {
        year: n.year(),
        month: u8::from(n.month()),
        day: n.day(),
        hour: n.hour(),
        minute: n.minute(),
        second: n.second(),
    }
}

/// Reads the wall clock. An instant before the common era, which the
/// system clock can report but the record layout cannot carry, is recorded
/// as year zero.
pub fn capture_timestamp() -> (t: Timestamp)
    ensures
        t.wf(),
{
    let raw = now_utc();
    let year: u16 = if raw.year < 0 {
        0u16
    } else {
        raw.year as u16
    };
    Timestamp {
        year,
        month: raw.month,
        day: raw.day,
        hour: raw.hour,
        minute: raw.minute,
        second: raw.second,
    }
}

} // verus!
