//! Small shared helpers: the unit and timestamp column renderings, and
//! session-id generation from the process-wide random source.

use crate::args::{HumidityUnit, PressureUnit, TemperatureUnit};
use crate::codec::unit_tag;
use crate::digits::is_digit;
use crate::sensor::Unit;
use crate::timestamp::{push_timestamp, ts_bytes, Timestamp};
use rand::Rng;
use vstd::prelude::*;

verus! {

/// Renders the tag a record's unit column carries, as `temperature_celsius`.
pub fn serialize_unit(unit: &Unit) -> (r: Vec<u8>)
    ensures
        r@ == unit_tag(*unit),
{
    let r: Vec<u8> = match unit {
        Unit::TemperatureUnit(TemperatureUnit::Celsius) => vec![0x74u8, 0x65u8, 0x6Du8, 0x70u8, 0x65u8, 0x72u8, 0x61u8, 0x74u8, 0x75u8, 0x72u8, 0x65u8, 0x5Fu8, 0x63u8, 0x65u8, 0x6Cu8, 0x73u8, 0x69u8, 0x75u8, 0x73u8],
        Unit::TemperatureUnit(TemperatureUnit::Kelvin) => vec![0x74u8, 0x65u8, 0x6Du8, 0x70u8, 0x65u8, 0x72u8, 0x61u8, 0x74u8, 0x75u8, 0x72u8, 0x65u8, 0x5Fu8, 0x6Bu8, 0x65u8, 0x6Cu8, 0x76u8, 0x69u8, 0x6Eu8],
        Unit::PressureUnit(PressureUnit::Pascal) => vec![0x70u8, 0x72u8, 0x65u8, 0x73u8, 0x73u8, 0x75u8, 0x72u8, 0x65u8, 0x5Fu8, 0x70u8, 0x61u8, 0x73u8, 0x63u8, 0x61u8, 0x6Cu8],
        Unit::PressureUnit(PressureUnit::Bar) => vec![0x70u8, 0x72u8, 0x65u8, 0x73u8, 0x73u8, 0x75u8, 0x72u8, 0x65u8, 0x5Fu8, 0x62u8, 0x61u8, 0x72u8],
        Unit::HumidityUnit(HumidityUnit::Absolute) => vec![0x68u8, 0x75u8, 0x6Du8, 0x69u8, 0x64u8, 0x69u8, 0x74u8, 0x79u8, 0x5Fu8, 0x61u8, 0x62u8, 0x73u8, 0x6Fu8, 0x6Cu8, 0x75u8, 0x74u8, 0x65u8],
        Unit::HumidityUnit(HumidityUnit::Relative) => vec![0x68u8, 0x75u8, 0x6Du8, 0x69u8, 0x64u8, 0x69u8, 0x74u8, 0x79u8, 0x5Fu8, 0x72u8, 0x65u8, 0x6Cu8, 0x61u8, 0x74u8, 0x69u8, 0x76u8, 0x65u8],
    };
    assert(r@ =~= unit_tag(*unit));
    r
}

/// Renders a timestamp as `YYYY-MM-DD HH:MM:SS` for a record's timestamp
/// column.
pub fn serialize_timestamp(datetime: &Timestamp) -> (r: Vec<u8>)
    requires
        datetime.wf(),
    ensures
        r@ == ts_bytes(*datetime),
{
    let mut out: Vec<u8> = Vec::new();
    push_timestamp(&mut out, datetime);
    out
}

/// The table of characters a session-id code draws from: the decimal
/// digits and both alphabets.
pub open spec fn id_table() -> Seq<u8> {
    Seq::new(62, |i: int|
        if i < 10 {
            (0x30 + i) as u8
        } else if i < 36 {
            (0x41 + (i - 10)) as u8
        } else {
            (0x61 + (i - 36)) as u8
        })
}

/// Relies on `rand::Rng::random_range` over `lo..hi`, which returns a value
/// of the range and refuses an empty one.
#[verifier::external_body]
pub(crate) fn random_range_u64(lo: u64, hi: u64) -> (r: u64)
    requires
        lo < hi,
    ensures
        lo <= r < hi,
{
    rand::rng().random_range(lo..hi)
}

/// Draws a three-character code over digits and letters from the
/// process-wide random source.
pub fn create_id() -> (code: Vec<u8>)
    ensures
        code@.len() == 3,
        forall|i: int| 0 <= i < 3 ==> id_table().contains(#[trigger] code@[i]),
{
    let mut code: Vec<u8> = Vec::new();
    let mut k: usize = 0;
    while k < 3
        invariant
            k <= 3,
            code@.len() == k,
            forall|i: int| 0 <= i < k ==> id_table().contains(#[trigger] code@[i]),
        decreases 3 - k,
    {
        let x = random_range_u64(0, 62);
        let b: u8 = if x < 10 {
            0x30 + x as u8
        } else if x < 36 {
            0x41 + (x - 10) as u8
        } else {
            0x61 + (x - 36) as u8
        };
        assert(id_table()[x as int] == b);
        code.push(b);
        k = k + 1;
    }
    code
}

/// Every character of the id table is a digit or a letter: plain text that
/// needs no quoting in any of the record formats.
pub proof fn lemma_id_table_plain()
    ensures
        forall|i: int|
            0 <= i < id_table().len() ==> {
                let b = #[trigger] id_table()[i];
                is_digit(b) || 0x41 <= b <= 0x5A || 0x61 <= b <= 0x7A
            },
{
}

} // verus!
