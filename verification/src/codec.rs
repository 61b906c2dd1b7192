//! The on-disk record formats: the tabular layout used for partition files
//! and the final dump, and the structured array-of-objects dump.
//!
//! Both formats are specified byte for byte over the mathematical content
//! of the readings, and the tabular format is proved to parse back to
//! exactly what was written.

use crate::args::{HumidityUnit, PressureUnit, TemperatureUnit};
use crate::digits::{
    centi_bytes, centi_to_dec, dec_to_centi, is_digit, parse_centi, slice_skip, slice_take, DOT,
    MINUS,
};
use crate::sensor::{models, ReadingModel, SensorOutput, Unit};
use crate::timestamp::{clock_bytes, push_clock, push_timestamp, ts_bytes, COLON, DASH, SPACE};
use vstd::prelude::*;

verus! {

/// The byte commonly written `,`.
pub const COMMA: u8 = 0x2C;

/// The line-feed byte.
pub const NEWLINE: u8 = 0x0A;

/// The byte commonly written `"`.
pub const QUOTE: u8 = 0x22;

/// The backslash byte.
pub const BACKSLASH: u8 = 0x5C;

/// Text that may stand in a record field as it is: no control bytes, no
/// field or row delimiter, no quote, no escape.
pub open spec fn field_safe(s: Seq<u8>) -> bool {
    forall|i: int|
        0 <= i < s.len() ==> {
            let b = #[trigger] s[i];
            b >= 0x20 && b != COMMA && b != QUOTE && b != BACKSLASH
        }
}

/// Appends all of `s`.
pub fn push_bytes(out: &mut Vec<u8>, s: &[u8])
    ensures
        final(out)@ == old(out)@ + s@,
{
    let mut i: usize = 0;
    while i < s.len()
        invariant
            i <= s@.len(),
            out@ == old(out)@ + s@.take(i as int),
        decreases s@.len() - i,
    {
        let b = s[i];
        out.push(b);
        assert(s@.take(i + 1) =~= s@.take(i as int).push(b));
        i = i + 1;
    }
    assert(s@.take(s@.len() as int) =~= s@);
}

/// The tag written in a record's unit column, as `temperature_celsius`.
pub open spec fn unit_tag(u: Unit) -> Seq<u8> {
    match u {
        Unit::TemperatureUnit(TemperatureUnit::Celsius) => seq![0x74u8, 0x65u8, 0x6Du8, 0x70u8, 0x65u8, 0x72u8, 0x61u8, 0x74u8, 0x75u8, 0x72u8, 0x65u8, 0x5Fu8, 0x63u8, 0x65u8, 0x6Cu8, 0x73u8, 0x69u8, 0x75u8, 0x73u8],
        Unit::TemperatureUnit(TemperatureUnit::Kelvin) => seq![0x74u8, 0x65u8, 0x6Du8, 0x70u8, 0x65u8, 0x72u8, 0x61u8, 0x74u8, 0x75u8, 0x72u8, 0x65u8, 0x5Fu8, 0x6Bu8, 0x65u8, 0x6Cu8, 0x76u8, 0x69u8, 0x6Eu8],
        Unit::PressureUnit(PressureUnit::Pascal) => seq![0x70u8, 0x72u8, 0x65u8, 0x73u8, 0x73u8, 0x75u8, 0x72u8, 0x65u8, 0x5Fu8, 0x70u8, 0x61u8, 0x73u8, 0x63u8, 0x61u8, 0x6Cu8],
        Unit::PressureUnit(PressureUnit::Bar) => seq![0x70u8, 0x72u8, 0x65u8, 0x73u8, 0x73u8, 0x75u8, 0x72u8, 0x65u8, 0x5Fu8, 0x62u8, 0x61u8, 0x72u8],
        Unit::HumidityUnit(HumidityUnit::Absolute) => seq![0x68u8, 0x75u8, 0x6Du8, 0x69u8, 0x64u8, 0x69u8, 0x74u8, 0x79u8, 0x5Fu8, 0x61u8, 0x62u8, 0x73u8, 0x6Fu8, 0x6Cu8, 0x75u8, 0x74u8, 0x65u8],
        Unit::HumidityUnit(HumidityUnit::Relative) => seq![0x68u8, 0x75u8, 0x6Du8, 0x69u8, 0x64u8, 0x69u8, 0x74u8, 0x79u8, 0x5Fu8, 0x72u8, 0x65u8, 0x6Cu8, 0x61u8, 0x74u8, 0x69u8, 0x76u8, 0x65u8],
    }
}

/// The unit's display string, UTF-8 encoded.
pub open spec fn unit_symbol(u: Unit) -> Seq<u8> {
    match u {
        Unit::TemperatureUnit(TemperatureUnit::Celsius) => seq![0xC2u8, 0xB0u8, 0x43u8],
        Unit::TemperatureUnit(TemperatureUnit::Kelvin) => seq![0x4Bu8],
        Unit::PressureUnit(PressureUnit::Pascal) => seq![0x50u8, 0x61u8],
        Unit::PressureUnit(PressureUnit::Bar) => seq![0x62u8, 0x61u8, 0x72u8],
        Unit::HumidityUnit(HumidityUnit::Absolute) => seq![0x67u8, 0x2Fu8, 0x6Du8, 0x5Eu8, 0x33u8],
        Unit::HumidityUnit(HumidityUnit::Relative) => seq![0x25u8],
    }
}

/// The unit's outer tag in the structured dump.
pub open spec fn unit_variant_name(u: Unit) -> Seq<u8> {
    match u {
        Unit::TemperatureUnit(_) => seq![0x54u8, 0x65u8, 0x6Du8, 0x70u8, 0x65u8, 0x72u8, 0x61u8, 0x74u8, 0x75u8, 0x72u8, 0x65u8, 0x55u8, 0x6Eu8, 0x69u8, 0x74u8],
        Unit::PressureUnit(_) => seq![0x50u8, 0x72u8, 0x65u8, 0x73u8, 0x73u8, 0x75u8, 0x72u8, 0x65u8, 0x55u8, 0x6Eu8, 0x69u8, 0x74u8],
        Unit::HumidityUnit(_) => seq![0x48u8, 0x75u8, 0x6Du8, 0x69u8, 0x64u8, 0x69u8, 0x74u8, 0x79u8, 0x55u8, 0x6Eu8, 0x69u8, 0x74u8],
    }
}

/// The unit's inner tag in the structured dump.
pub open spec fn unit_inner_name(u: Unit) -> Seq<u8> {
    match u {
        Unit::TemperatureUnit(TemperatureUnit::Celsius) => seq![0x43u8, 0x65u8, 0x6Cu8, 0x73u8, 0x69u8, 0x75u8, 0x73u8],
        Unit::TemperatureUnit(TemperatureUnit::Kelvin) => seq![0x4Bu8, 0x65u8, 0x6Cu8, 0x76u8, 0x69u8, 0x6Eu8],
        Unit::PressureUnit(PressureUnit::Pascal) => seq![0x50u8, 0x61u8, 0x73u8, 0x63u8, 0x61u8, 0x6Cu8],
        Unit::PressureUnit(PressureUnit::Bar) => seq![0x42u8, 0x61u8, 0x72u8],
        Unit::HumidityUnit(HumidityUnit::Absolute) => seq![0x41u8, 0x62u8, 0x73u8, 0x6Fu8, 0x6Cu8, 0x75u8, 0x74u8, 0x65u8],
        Unit::HumidityUnit(HumidityUnit::Relative) => seq![0x52u8, 0x65u8, 0x6Cu8, 0x61u8, 0x74u8, 0x69u8, 0x76u8, 0x65u8],
    }
}

/// Builds the unit's display string.
pub fn unit_symbol_bytes(u: &Unit) -> (r: Vec<u8>)
    ensures
        r@ == unit_symbol(*u),
{
    let r: Vec<u8> = match u {
        Unit::TemperatureUnit(TemperatureUnit::Celsius) => vec![0xC2u8, 0xB0u8, 0x43u8],
        Unit::TemperatureUnit(TemperatureUnit::Kelvin) => vec![0x4Bu8],
        Unit::PressureUnit(PressureUnit::Pascal) => vec![0x50u8, 0x61u8],
        Unit::PressureUnit(PressureUnit::Bar) => vec![0x62u8, 0x61u8, 0x72u8],
        Unit::HumidityUnit(HumidityUnit::Absolute) => vec![0x67u8, 0x2Fu8, 0x6Du8, 0x5Eu8, 0x33u8],
        Unit::HumidityUnit(HumidityUnit::Relative) => vec![0x25u8],
    };
    assert(r@ =~= unit_symbol(*u));
    r
}

/// A record's unit column read back as a unit.
pub open spec fn tag_to_unit(s: Seq<u8>) -> Option<Unit> {
    if s == unit_tag(Unit::TemperatureUnit(TemperatureUnit::Celsius)) {
        Some(Unit::TemperatureUnit(TemperatureUnit::Celsius))
    } else if s == unit_tag(Unit::TemperatureUnit(TemperatureUnit::Kelvin)) {
        Some(Unit::TemperatureUnit(TemperatureUnit::Kelvin))
    } else if s == unit_tag(Unit::PressureUnit(PressureUnit::Pascal)) {
        Some(Unit::PressureUnit(PressureUnit::Pascal))
    } else if s == unit_tag(Unit::PressureUnit(PressureUnit::Bar)) {
        Some(Unit::PressureUnit(PressureUnit::Bar))
    } else if s == unit_tag(Unit::HumidityUnit(HumidityUnit::Absolute)) {
        Some(Unit::HumidityUnit(HumidityUnit::Absolute))
    } else if s == unit_tag(Unit::HumidityUnit(HumidityUnit::Relative)) {
        Some(Unit::HumidityUnit(HumidityUnit::Relative))
    } else {
        None
    }
}

/// The column-name line that opens every tabular file.
pub open spec fn header_bytes() -> Seq<u8> {
    seq![0x69u8, 0x64u8, 0x2Cu8, 0x74u8, 0x69u8, 0x6Du8, 0x65u8, 0x73u8, 0x74u8, 0x61u8, 0x6Du8, 0x70u8, 0x2Cu8, 0x76u8, 0x61u8, 0x6Cu8, 0x75u8, 0x65u8, 0x2Cu8, 0x75u8, 0x6Eu8, 0x69u8, 0x74u8, 0x2Cu8, 0x73u8, 0x79u8, 0x6Du8, 0x62u8, 0x6Fu8, 0x6Cu8, 0x0Au8]
}

/// Appends the column-name line.
pub fn push_header(out: &mut Vec<u8>)
    ensures
        final(out)@ == old(out)@ + header_bytes(),
{
    let h: Vec<u8> = vec![0x69u8, 0x64u8, 0x2Cu8, 0x74u8, 0x69u8, 0x6Du8, 0x65u8, 0x73u8, 0x74u8, 0x61u8, 0x6Du8, 0x70u8, 0x2Cu8, 0x76u8, 0x61u8, 0x6Cu8, 0x75u8, 0x65u8, 0x2Cu8, 0x75u8, 0x6Eu8, 0x69u8, 0x74u8, 0x2Cu8, 0x73u8, 0x79u8, 0x6Du8, 0x62u8, 0x6Fu8, 0x6Cu8, 0x0Au8];
    assert(h@ =~= header_bytes());
    push_bytes(out, h.as_slice());
}

/// One record as a line of the tabular format, without the row terminator:
/// the five columns joined by commas.
pub open spec fn csv_line(m: ReadingModel) -> Seq<u8> {
    m.id + seq![COMMA] + ts_bytes(m.timestamp) + seq![COMMA] + centi_bytes(m.value as int)
        + seq![COMMA] + unit_tag(m.unit) + seq![COMMA] + m.symbol
}

/// One record as a full row: the line and its terminator.
pub open spec fn csv_row(m: ReadingModel) -> Seq<u8> {
    csv_line(m) + seq![NEWLINE]
}

/// The rows of a run of records, in order.
pub open spec fn csv_rows(ms: Seq<ReadingModel>) -> Seq<u8>
    decreases ms.len(),
{
    if ms.len() == 0 {
        Seq::empty()
    } else {
        csv_row(ms[0]) + csv_rows(ms.drop_first())
    }
}

/// A whole tabular file: the column-name line, then one row per record.
pub open spec fn csv_file(ms: Seq<ReadingModel>) -> Seq<u8> {
    header_bytes() + csv_rows(ms)
}

/// Appends one record as a row of the tabular format.
pub fn push_row(out: &mut Vec<u8>, r: &SensorOutput)
    requires
        r.timestamp.wf(),
    ensures
        final(out)@ == old(out)@ + csv_row(r.model()),
{
    push_bytes(out, r.id.as_slice());
    out.push(COMMA);
    push_timestamp(out, &r.timestamp);
    out.push(COMMA);
    let v = centi_to_dec(r.value_centi);
    push_bytes(out, v.as_slice());
    out.push(COMMA);
    let tag = crate::utils::serialize_unit(&r.unit);
    push_bytes(out, tag.as_slice());
    out.push(COMMA);
    push_bytes(out, r.symbol.as_slice());
    out.push(NEWLINE);
    assert(out@ =~= old(out)@ + csv_row(r.model()));
}

/// Rows concatenate: the rows of two runs in sequence are the rows of the
/// first followed by the rows of the second.
#[verifier::rlimit(50)]
pub proof fn lemma_csv_rows_concat(a: Seq<ReadingModel>, b: Seq<ReadingModel>)
    ensures
        csv_rows(a + b) == csv_rows(a) + csv_rows(b),
    decreases a.len(),
{
    if a.len() == 0 {
        assert(a + b =~= b);
        assert(csv_rows(a) + csv_rows(b) =~= csv_rows(b));
    } else {
        lemma_csv_rows_concat(a.drop_first(), b);
        assert((a + b).drop_first() =~= a.drop_first() + b);
        assert((a + b)[0] == a[0]);
        assert(csv_rows(a + b) == csv_row(a[0]) + (csv_rows(a.drop_first()) + csv_rows(b)));
        assert(csv_row(a[0]) + (csv_rows(a.drop_first()) + csv_rows(b)) =~= (csv_row(a[0])
            + csv_rows(a.drop_first())) + csv_rows(b));
    }
}

/// Appending one record appends one row.
pub proof fn lemma_csv_rows_snoc(a: Seq<ReadingModel>, m: ReadingModel)
    ensures
        csv_rows(a.push(m)) == csv_rows(a) + csv_row(m),
{
    lemma_csv_rows_concat(a, seq![m]);
    assert(a.push(m) =~= a + seq![m]);
    assert(seq![m].drop_first() =~= Seq::<ReadingModel>::empty());
    assert(csv_rows(seq![m]) == csv_row(m) + csv_rows(Seq::<ReadingModel>::empty()));
    assert(csv_row(m) + Seq::<u8>::empty() =~= csv_row(m));
}

/// The whole history as one tabular file.
pub fn csv_file_bytes(readings: &Vec<SensorOutput>) -> (r: Vec<u8>)
    requires
        forall|i: int| 0 <= i < readings@.len() ==> (#[trigger] readings@[i]).timestamp.wf(),
    ensures
        r@ == csv_file(models(readings@)),
{
    let mut out: Vec<u8> = Vec::new();
    push_header(&mut out);
    let mut i: usize = 0;
    while i < readings.len()
        invariant
            i <= readings@.len(),
            forall|k: int| 0 <= k < readings@.len() ==> (#[trigger] readings@[k]).timestamp.wf(),
            out@ == header_bytes() + csv_rows(models(readings@).take(i as int)),
        decreases readings@.len() - i,
    {
        push_row(&mut out, &readings[i]);
        proof {
            lemma_csv_rows_snoc(models(readings@).take(i as int), readings@[i as int].model());
            assert(models(readings@).take(i + 1) =~= models(readings@).take(i as int).push(
                readings@[i as int].model(),
            ));
        }
        i = i + 1;
    }
    assert(models(readings@).take(readings@.len() as int) =~= models(readings@));
    out
}


/// The position of the first occurrence of `b` in `s`, or -1 when `s`
/// holds none.
pub open spec fn find_byte(s: Seq<u8>, b: u8) -> int
    decreases s.len(),
{
    if s.len() == 0 {
        -1
    } else if s[0] == b {
        0
    } else {
        let t = find_byte(s.drop_first(), b);
        if t < 0 {
            -1
        } else {
            t + 1
        }
    }
}

/// What the position found means: the byte stands there and nowhere
/// earlier, and -1 means the byte does not occur at all.
pub proof fn lemma_find_byte_spec(s: Seq<u8>, b: u8)
    ensures
        find_byte(s, b) >= 0 ==> {
            &&& find_byte(s, b) < s.len()
            &&& s[find_byte(s, b)] == b
            &&& forall|j: int| 0 <= j < find_byte(s, b) ==> s[j] != b
        },
        find_byte(s, b) < 0 ==> forall|j: int| 0 <= j < s.len() ==> s[j] != b,
    decreases s.len(),
{
    if s.len() == 0 {
    } else if s[0] == b {
    } else {
        let t = find_byte(s.drop_first(), b);
        lemma_find_byte_spec(s.drop_first(), b);
        assert(forall|j: int|
            0 <= j < s.drop_first().len() ==> #[trigger] s.drop_first()[j] == s[j + 1]);
        if t >= 0 {
            assert(find_byte(s, b) == t + 1);
            assert(s[t + 1] == s.drop_first()[t]);
            assert forall|j: int| 0 <= j < t + 1 implies s[j] != b by {
                if j > 0 {
                    assert(s[j] == s.drop_first()[j - 1]);
                }
            }
        } else {
            assert forall|j: int| 0 <= j < s.len() implies s[j] != b by {
                if j > 0 {
                    assert(s[j] == s.drop_first()[j - 1]);
                }
            }
        }
    }
}

/// Looking for a byte beyond a stretch that does not hold it finds it at
/// the same distance into the rest.
pub proof fn lemma_find_byte_past(x: Seq<u8>, rest: Seq<u8>, b: u8)
    requires
        forall|i: int| 0 <= i < x.len() ==> x[i] != b,
    ensures
        find_byte(x + rest, b) == if find_byte(rest, b) < 0 {
            -1int
        } else {
            x.len() + find_byte(rest, b)
        },
    decreases x.len(),
{
    if x.len() == 0 {
        assert(x + rest =~= rest);
    } else {
        let s = x + rest;
        assert(s.len() > 0);
        assert(s[0] == x[0]);
        assert(s[0] != b);
        assert(s.drop_first() =~= x.drop_first() + rest);
        assert(forall|i: int| 0 <= i < x.drop_first().len() ==> x.drop_first()[i] != b);
        lemma_find_byte_past(x.drop_first(), rest, b);
    }
}

/// The content read back from one row: the five columns, the value and
/// unit columns already decoded.
pub ghost struct ParsedRecord {
    pub id: Seq<u8>,
    pub timestamp: Seq<u8>,
    pub value: i64,
    pub unit: Unit,
    pub symbol: Seq<u8>,
}

/// What one record becomes when its row is read back: the id, timestamp
/// string, value and symbol come through unchanged.
pub open spec fn record_of(m: ReadingModel) -> ParsedRecord {
    ParsedRecord {
        id: m.id,
        timestamp: ts_bytes(m.timestamp),
        value: m.value,
        unit: m.unit,
        symbol: m.symbol,
    }
}

/// The text before the first comma, and what follows that comma.
pub open spec fn split_field(s: Seq<u8>) -> Option<(Seq<u8>, Seq<u8>)> {
    let i = find_byte(s, COMMA);
    if i < 0 {
        None
    } else {
        Some((s.take(i), s.skip(i + 1)))
    }
}

/// Reads one line of the tabular format: five columns joined by commas,
/// the value column a hundredths value, the unit column a known tag.
pub open spec fn parse_line(line: Seq<u8>) -> Option<ParsedRecord> {
    match split_field(line) {
        None => None,
        Some((id, r1)) => match split_field(r1) {
            None => None,
            Some((tsf, r2)) => match split_field(r2) {
                None => None,
                Some((vf, r3)) => match split_field(r3) {
                    None => None,
                    Some((tagf, symf)) => {
                        if find_byte(symf, COMMA) >= 0 {
                            None
                        } else {
                            match (parse_centi(vf), tag_to_unit(tagf)) {
                                (Some(v), Some(u)) => Some(
                                    ParsedRecord {
                                        id: id,
                                        timestamp: tsf,
                                        value: v,
                                        unit: u,
                                        symbol: symf,
                                    },
                                ),
                                _ => None,
                            }
                        }
                    },
                },
            },
        },
    }
}

/// Reads the rows after the column-name line: one record per
/// newline-terminated row.
pub open spec fn parse_rows(s: Seq<u8>) -> Option<Seq<ParsedRecord>>
    decreases s.len(),
{
    if s.len() == 0 {
        Some(Seq::empty())
    } else {
        let i = find_byte(s, NEWLINE);
        if !(0 <= i < s.len()) {
            None
        } else {
            let line = s.take(i);
            let rest = s.skip(i + 1);
            match parse_line(line) {
                None => None,
                Some(rec) => match parse_rows(rest) {
                    None => None,
                    Some(v) => Some(seq![rec] + v),
                },
            }
        }
    }
}

/// Reads a whole tabular file: the column-name line, then the rows.
pub open spec fn parse_csv(s: Seq<u8>) -> Option<Seq<ParsedRecord>> {
    if s.len() >= header_bytes().len() && s.take(header_bytes().len() as int) == header_bytes() {
        parse_rows(s.skip(header_bytes().len() as int))
    } else {
        None
    }
}


/// The tags of the unit column are plain, short, pairwise distinct names,
/// and reading one back gives the unit it was written for.
pub proof fn lemma_unit_tag_wf(u: Unit)
    ensures
        field_safe(unit_tag(u)),
        unit_tag(u).len() >= 1,
        tag_to_unit(unit_tag(u)) == Some(u),
        forall|i: int| 0 <= i < unit_tag(u).len() ==> #[trigger] unit_tag(u)[i] != NEWLINE,
{
    let t = unit_tag(u);
    match u {
        Unit::TemperatureUnit(TemperatureUnit::Celsius) => {
            assert(t.len() == 19);
        },
        Unit::TemperatureUnit(TemperatureUnit::Kelvin) => {
            assert(t.len() == 18);
        },
        Unit::PressureUnit(PressureUnit::Pascal) => {
            assert(t.len() == 15);
        },
        Unit::PressureUnit(PressureUnit::Bar) => {
            assert(t.len() == 12);
        },
        Unit::HumidityUnit(HumidityUnit::Absolute) => {
            assert(t.len() == 17);
            assert(t[9] == 0x61);
        },
        Unit::HumidityUnit(HumidityUnit::Relative) => {
            assert(t.len() == 17);
            assert(t[9] == 0x72);
            assert(unit_tag(Unit::HumidityUnit(HumidityUnit::Absolute))[9] == 0x61);
        },
    }
}

/// Splitting at the first occurrence of `b` after text free of it
/// recovers that text and what follows.
pub proof fn lemma_peel_at(x: Seq<u8>, rest: Seq<u8>, b: u8)
    requires
        forall|i: int| 0 <= i < x.len() ==> #[trigger] x[i] != b,
    ensures
        find_byte(x + seq![b] + rest, b) == x.len(),
        (x + seq![b] + rest).take(x.len() as int) == x,
        (x + seq![b] + rest).skip(x.len() as int + 1) == rest,
        (x + seq![b] + rest).len() == x.len() + 1 + rest.len(),
{
    let s = x + seq![b] + rest;
    assert(s =~= x + (seq![b] + rest));
    assert((seq![b] + rest)[0] == b);
    assert(find_byte(seq![b] + rest, b) == 0);
    lemma_find_byte_past(x, seq![b] + rest, b);
    assert(s.take(x.len() as int) =~= x);
    assert(s.skip(x.len() as int + 1) =~= rest);
}

/// Splitting at the first comma after comma-free text recovers that text
/// and what follows.
pub proof fn lemma_peel_field(x: Seq<u8>, rest: Seq<u8>)
    requires
        forall|i: int| 0 <= i < x.len() ==> #[trigger] x[i] != COMMA,
    ensures
        split_field(x + seq![COMMA] + rest) == Some((x, rest)),
{
    lemma_peel_at(x, rest, COMMA);
}

/// A rendered line is newline-free, and reading it back recovers the
/// record: the id, the timestamp string, the value, the unit and the
/// symbol.
#[verifier::rlimit(100)]
pub proof fn lemma_parse_line_round_trip(m: ReadingModel)
    requires
        m.wf(),
    ensures
        parse_line(csv_line(m)) == Some(record_of(m)),
        forall|i: int| 0 <= i < csv_line(m).len() ==> #[trigger] csv_line(m)[i] != NEWLINE,
{
    let idf = m.id;
    let tsf = ts_bytes(m.timestamp);
    let vf = centi_bytes(m.value as int);
    let tgf = unit_tag(m.unit);
    let syf = m.symbol;
    let line = csv_line(m);

    crate::timestamp::lemma_ts_bytes_plain(m.timestamp);
    crate::digits::lemma_centi_bytes_plain(m.value as int);
    lemma_unit_tag_wf(m.unit);
    crate::digits::lemma_centi_round_trip(m.value);

    assert(forall|i: int| 0 <= i < idf.len() ==> #[trigger] idf[i] != COMMA && idf[i] != NEWLINE);
    assert(forall|i: int| 0 <= i < tsf.len() ==> #[trigger] tsf[i] != COMMA && tsf[i] != NEWLINE);
    assert(forall|i: int| 0 <= i < vf.len() ==> #[trigger] vf[i] != COMMA && vf[i] != NEWLINE);
    assert(forall|i: int| 0 <= i < tgf.len() ==> #[trigger] tgf[i] != COMMA && tgf[i] != NEWLINE);
    assert(forall|i: int| 0 <= i < syf.len() ==> #[trigger] syf[i] != COMMA && syf[i] != NEWLINE);

    let rest3 = tgf + seq![COMMA] + syf;
    let rest2 = vf + seq![COMMA] + rest3;
    let rest1 = tsf + seq![COMMA] + rest2;
    assert(line =~= idf + seq![COMMA] + rest1);
    lemma_peel_field(idf, rest1);
    assert(split_field(line) == Some((idf, rest1)));
    lemma_peel_field(tsf, rest2);
    assert(split_field(rest1) == Some((tsf, rest2)));
    lemma_peel_field(vf, rest3);
    assert(split_field(rest2) == Some((vf, rest3)));
    lemma_peel_field(tgf, syf);
    assert(split_field(rest3) == Some((tgf, syf)));

    assert(find_byte(syf, COMMA) < 0) by {
        lemma_find_byte_spec(syf, COMMA);
    };

    assert(parse_centi(vf) == Some(m.value));
    assert(tag_to_unit(tgf) == Some(m.unit));
}

/// Reading back the rendered rows of a run of records gives exactly those
/// records, in order.
pub proof fn lemma_parse_rows_round_trip(ms: Seq<ReadingModel>)
    requires
        forall|i: int| 0 <= i < ms.len() ==> (#[trigger] ms[i]).wf(),
    ensures
        parse_rows(csv_rows(ms)) == Some(ms.map_values(|m: ReadingModel| record_of(m))),
    decreases ms.len(),
{
    let recs = ms.map_values(|m: ReadingModel| record_of(m));
    if ms.len() == 0 {
        assert(csv_rows(ms).len() == 0);
        assert(recs =~= Seq::<ParsedRecord>::empty());
    } else {
        let m0 = ms[0];
        let tail = ms.drop_first();
        lemma_parse_line_round_trip(m0);
        assert(forall|i: int| 0 <= i < tail.len() ==> (#[trigger] tail[i]).wf()) by {
            assert(forall|i: int| 0 <= i < tail.len() ==> tail[i] == ms[i + 1]);
        };
        lemma_parse_rows_round_trip(tail);

        let lineb = csv_line(m0);
        let restb = csv_rows(tail);
        let s = csv_rows(ms);
        assert(s == csv_row(m0) + restb);
        assert(csv_row(m0) == lineb + seq![NEWLINE]);
        lemma_peel_at(lineb, restb, NEWLINE);
        assert(s == lineb + seq![NEWLINE] + restb);
        assert(s.len() > 0);
        let i = find_byte(s, NEWLINE);
        assert(i == lineb.len());
        assert(s.take(i) == lineb);
        assert(s.skip(i + 1) == restb);
        let tailrecs = tail.map_values(|m: ReadingModel| record_of(m));
        assert(parse_line(lineb) == Some(record_of(m0)));
        assert(parse_rows(restb) == Some(tailrecs));
        assert(parse_rows(s) == Some(seq![record_of(m0)] + tailrecs));
        assert(recs =~= seq![record_of(m0)] + tailrecs) by {
            assert(forall|i: int| 0 <= i < tail.len() ==> tail[i] == ms[i + 1]);
        };
    }
}

/// Round trip: a run of records rendered to the tabular format and read
/// back yields exactly the written id, timestamp string, value, unit and
/// symbol of every record, in order.
pub proof fn lemma_csv_round_trip(ms: Seq<ReadingModel>)
    requires
        forall|i: int| 0 <= i < ms.len() ==> (#[trigger] ms[i]).wf(),
    ensures
        parse_csv(csv_file(ms)) == Some(ms.map_values(|m: ReadingModel| record_of(m))),
{
    let s = csv_file(ms);
    let h = header_bytes();
    assert(s.len() >= h.len());
    assert(s.take(h.len() as int) =~= h);
    assert(s.skip(h.len() as int) =~= csv_rows(ms));
    lemma_parse_rows_round_trip(ms);
}


/// The content read back from one row, as held at run time.
#[derive(Debug)]
pub struct ParsedRow {
    pub id: Vec<u8>,
    pub timestamp: Vec<u8>,
    pub value_centi: i64,
    pub unit: Unit,
    pub symbol: Vec<u8>,
}

impl ParsedRow {
    pub open spec fn model(self) -> ParsedRecord {
        ParsedRecord {
            id: self.id@,
            timestamp: self.timestamp@,
            value: self.value_centi,
            unit: self.unit,
            symbol: self.symbol@,
        }
    }
}

/// Whether two byte strings hold the same bytes.
pub fn bytes_eq(a: &[u8], b: &[u8]) -> (r: bool)
    ensures
        r == (a@ == b@),
{
    if a.len() != b.len() {
        return false;
    }
    let mut i: usize = 0;
    while i < a.len()
        invariant
            i <= a@.len(),
            a@.len() == b@.len(),
            forall|j: int| 0 <= j < i ==> a@[j] == b@[j],
        decreases a@.len() - i,
    {
        if a[i] != b[i] {
            return false;
        }
        i = i + 1;
    }
    assert(a@ =~= b@);
    true
}

/// The position of the first occurrence of `b`, scanning forward.
pub fn find_in(s: &[u8], b: u8) -> (r: Option<usize>)
    ensures
        match r {
            Some(i) => find_byte(s@, b) == i as int && i < s@.len(),
            None => find_byte(s@, b) < 0,
        },
{
    let mut i: usize = 0;
    while i < s.len()
        invariant
            i <= s@.len(),
            forall|j: int| 0 <= j < i ==> s@[j] != b,
        decreases s@.len() - i,
    {
        if s[i] == b {
            proof {
                lemma_find_byte_spec(s@, b);
            }
            return Some(i);
        }
        i = i + 1;
    }
    proof {
        lemma_find_byte_spec(s@, b);
    }
    None
}

/// Reads a unit column back, exactly as `tag_to_unit` describes.
pub fn unit_of_tag(f: &[u8]) -> (r: Option<Unit>)
    ensures
        r == tag_to_unit(f@),
{
    let t = crate::utils::serialize_unit(&Unit::TemperatureUnit(TemperatureUnit::Celsius));
    if bytes_eq(f, t.as_slice()) {
        return Some(Unit::TemperatureUnit(TemperatureUnit::Celsius));
    }
    let t = crate::utils::serialize_unit(&Unit::TemperatureUnit(TemperatureUnit::Kelvin));
    if bytes_eq(f, t.as_slice()) {
        return Some(Unit::TemperatureUnit(TemperatureUnit::Kelvin));
    }
    let t = crate::utils::serialize_unit(&Unit::PressureUnit(PressureUnit::Pascal));
    if bytes_eq(f, t.as_slice()) {
        return Some(Unit::PressureUnit(PressureUnit::Pascal));
    }
    let t = crate::utils::serialize_unit(&Unit::PressureUnit(PressureUnit::Bar));
    if bytes_eq(f, t.as_slice()) {
        return Some(Unit::PressureUnit(PressureUnit::Bar));
    }
    let t = crate::utils::serialize_unit(&Unit::HumidityUnit(HumidityUnit::Absolute));
    if bytes_eq(f, t.as_slice()) {
        return Some(Unit::HumidityUnit(HumidityUnit::Absolute));
    }
    let t = crate::utils::serialize_unit(&Unit::HumidityUnit(HumidityUnit::Relative));
    if bytes_eq(f, t.as_slice()) {
        return Some(Unit::HumidityUnit(HumidityUnit::Relative));
    }
    None
}

/// Splits off the column before the first comma, exactly as `split_field`
/// describes.
pub fn split_field_bytes<'a>(s: &'a [u8]) -> (r: Option<(&'a [u8], &'a [u8])>)
    ensures
        match r {
            Some((a, b)) => split_field(s@) == Some((a@, b@)) && b@.len() < s@.len(),
            None => split_field(s@) is None,
        },
{
    match find_in(s, COMMA) {
        None => None,
        Some(i) => {
            let n = s.len();
            assert(i < n);
            let a = slice_take(s, i);
            let b = slice_skip(s, i + 1);
            Some((a, b))
        },
    }
}

/// Reads one line, exactly as `parse_line` describes.
pub fn parse_line_bytes(line: &[u8]) -> (r: Option<ParsedRow>)
    ensures
        match r {
            Some(row) => parse_line(line@) == Some(row.model()),
            None => parse_line(line@) is None,
        },
{
    let (idf, r1) = match split_field_bytes(line) {
        Some(p) => p,
        None => {
            return None;
        },
    };
    let (tsf, r2) = match split_field_bytes(r1) {
        Some(p) => p,
        None => {
            return None;
        },
    };
    let (vf, r3) = match split_field_bytes(r2) {
        Some(p) => p,
        None => {
            return None;
        },
    };
    let (tagf, symf) = match split_field_bytes(r3) {
        Some(p) => p,
        None => {
            return None;
        },
    };
    match find_in(symf, COMMA) {
        Some(_) => {
            return None;
        },
        None => {},
    }
    let v = match dec_to_centi(vf) {
        Some(v) => v,
        None => {
            return None;
        },
    };
    let u = match unit_of_tag(tagf) {
        Some(u) => u,
        None => {
            return None;
        },
    };
    Some(
        ParsedRow {
            id: crate::sensor::copy_bytes(idf),
            timestamp: crate::sensor::copy_bytes(tsf),
            value_centi: v,
            unit: u,
            symbol: crate::sensor::copy_bytes(symf),
        },
    )
}

/// Reads a whole tabular file, exactly as `parse_csv` describes.
pub fn parse_csv_bytes(s: &[u8]) -> (r: Option<Vec<ParsedRow>>)
    ensures
        match r {
            Some(rows) => parse_csv(s@) == Some(
                rows@.map_values(|p: ParsedRow| p.model()),
            ),
            None => parse_csv(s@) is None,
        },
{
    let mut hdr: Vec<u8> = Vec::new();
    push_header(&mut hdr);
    if s.len() < hdr.len() {
        return None;
    }
    let pre = slice_take(s, hdr.len());
    if !bytes_eq(pre, hdr.as_slice()) {
        return None;
    }
    let mut rest: &[u8] = slice_skip(s, hdr.len());
    let mut out: Vec<ParsedRow> = Vec::new();
    while rest.len() > 0
        invariant
            match parse_rows(rest@) {
                Some(v) => parse_csv(s@) == Some(
                    out@.map_values(|p: ParsedRow| p.model()) + v,
                ),
                None => parse_csv(s@) is None,
            },
        decreases rest@.len(),
    {
        let i = match find_in(rest, NEWLINE) {
            Some(i) => i,
            None => {
                return None;
            },
        };
        let line = slice_take(rest, i);
        let row = match parse_line_bytes(line) {
            Some(r) => r,
            None => {
                return None;
            },
        };
        let ghost old_out = out@;
        let ghost old_rest = rest@;
        out.push(row);
        rest = slice_skip(rest, i + 1);
        proof {
            assert(old_rest.take(i as int) == line@);
            assert(old_rest.skip(i + 1) == rest@);
            assert(out@.map_values(|p: ParsedRow| p.model()) =~= old_out.map_values(
                |p: ParsedRow| p.model(),
            ).push(row.model()));
            if parse_rows(rest@) is Some {
                let v = parse_rows(rest@).unwrap();
                assert(parse_rows(old_rest) == Some(seq![row.model()] + v));
                assert(old_out.map_values(|p: ParsedRow| p.model()) + (seq![row.model()] + v)
                    =~= out@.map_values(|p: ParsedRow| p.model()) + v);
            }
        }
    }
    assert(rest@ =~= Seq::<u8>::empty());
    assert(out@.map_values(|p: ParsedRow| p.model()) + Seq::<ParsedRecord>::empty()
        =~= out@.map_values(|p: ParsedRow| p.model()));
    Some(out)
}



/// The byte commonly written `{`.
pub const LBRACE: u8 = 0x7B;

/// The byte commonly written `}`.
pub const RBRACE: u8 = 0x7D;

/// The byte commonly written `[`.
pub const LBRACKET: u8 = 0x5B;

/// The byte commonly written `]`.
pub const RBRACKET: u8 = 0x5D;

/// Text wrapped in double quotes.
pub open spec fn quoted(s: Seq<u8>) -> Seq<u8> {
    seq![QUOTE] + s + seq![QUOTE]
}

/// The object key `id`, quoted and followed by its colon.
pub open spec fn key_id() -> Seq<u8> {
    seq![0x22u8, 0x69u8, 0x64u8, 0x22u8, 0x3Au8]
}

/// The object key `timestamp`, quoted and followed by its colon.
pub open spec fn key_timestamp() -> Seq<u8> {
    seq![0x22u8, 0x74u8, 0x69u8, 0x6Du8, 0x65u8, 0x73u8, 0x74u8, 0x61u8, 0x6Du8, 0x70u8, 0x22u8, 0x3Au8]
}

/// The object key `value`, quoted and followed by its colon.
pub open spec fn key_value() -> Seq<u8> {
    seq![0x22u8, 0x76u8, 0x61u8, 0x6Cu8, 0x75u8, 0x65u8, 0x22u8, 0x3Au8]
}

/// The object key `unit`, quoted and followed by its colon.
pub open spec fn key_unit() -> Seq<u8> {
    seq![0x22u8, 0x75u8, 0x6Eu8, 0x69u8, 0x74u8, 0x22u8, 0x3Au8]
}

/// The object key `symbol`, quoted and followed by its colon.
pub open spec fn key_symbol() -> Seq<u8> {
    seq![0x22u8, 0x73u8, 0x79u8, 0x6Du8, 0x62u8, 0x6Fu8, 0x6Cu8, 0x22u8, 0x3Au8]
}

/// A unit in the structured dump: an object of one key, the sensor kind,
/// whose value names the unit.
pub open spec fn unit_json(u: Unit) -> Seq<u8> {
    seq![LBRACE] + quoted(unit_variant_name(u)) + seq![COLON] + quoted(unit_inner_name(u))
        + seq![RBRACE]
}

/// One record as an object of the structured dump.
pub open spec fn json_obj(m: ReadingModel) -> Seq<u8> {
    seq![LBRACE] + key_id() + quoted(m.id) + seq![COMMA] + key_timestamp() + quoted(
        ts_bytes(m.timestamp),
    ) + seq![COMMA] + key_value() + centi_bytes(m.value as int) + seq![COMMA] + key_unit()
        + unit_json(m.unit) + seq![COMMA] + key_symbol() + quoted(m.symbol) + seq![RBRACE]
}

/// The objects of a run of records, joined by commas.
pub open spec fn json_objs(ms: Seq<ReadingModel>) -> Seq<u8>
    decreases ms.len(),
{
    if ms.len() == 0 {
        Seq::empty()
    } else if ms.len() == 1 {
        json_obj(ms[0])
    } else {
        json_obj(ms[0]) + seq![COMMA] + json_objs(ms.drop_first())
    }
}

/// A whole structured dump: the records as an array of objects.
pub open spec fn json_file(ms: Seq<ReadingModel>) -> Seq<u8> {
    seq![LBRACKET] + json_objs(ms) + seq![RBRACKET]
}

/// Appending one record appends one object, with a separating comma
/// whenever records came before it.
#[verifier::rlimit(50)]
pub proof fn lemma_json_objs_snoc(ms: Seq<ReadingModel>, m: ReadingModel)
    ensures
        json_objs(ms.push(m)) == if ms.len() == 0 {
            json_obj(m)
        } else {
            json_objs(ms) + seq![COMMA] + json_obj(m)
        },
    decreases ms.len(),
{
    let w = ms.push(m);
    if ms.len() == 0 {
        assert(w.len() == 1);
        assert(w[0] == m);
    } else if ms.len() == 1 {
        assert(w.len() == 2);
        assert(w[0] == ms[0]);
        assert(w.drop_first() =~= seq![m]);
        assert(json_objs(seq![m]) == json_obj(m));
    } else {
        lemma_json_objs_snoc(ms.drop_first(), m);
        assert(w.drop_first() =~= ms.drop_first().push(m));
        assert(w[0] == ms[0]);
        assert(json_obj(ms[0]) + seq![COMMA] + (json_objs(ms.drop_first()) + seq![COMMA]
            + json_obj(m)) =~= (json_obj(ms[0]) + seq![COMMA] + json_objs(ms.drop_first()))
            + seq![COMMA] + json_obj(m));
    }
}

/// Appends text wrapped in double quotes.
pub fn push_quoted(out: &mut Vec<u8>, s: &[u8])
    ensures
        final(out)@ == old(out)@ + quoted(s@),
{
    out.push(QUOTE);
    push_bytes(out, s);
    out.push(QUOTE);
    assert(out@ =~= old(out)@ + quoted(s@));
}

/// Builds the unit's outer tag for the structured dump.
pub fn unit_variant_bytes(u: &Unit) -> (r: Vec<u8>)
    ensures
        r@ == unit_variant_name(*u),
{
    let r: Vec<u8> = match u {
        Unit::TemperatureUnit(..) => vec![0x54u8, 0x65u8, 0x6Du8, 0x70u8, 0x65u8, 0x72u8, 0x61u8, 0x74u8, 0x75u8, 0x72u8, 0x65u8, 0x55u8, 0x6Eu8, 0x69u8, 0x74u8],
        Unit::PressureUnit(..) => vec![0x50u8, 0x72u8, 0x65u8, 0x73u8, 0x73u8, 0x75u8, 0x72u8, 0x65u8, 0x55u8, 0x6Eu8, 0x69u8, 0x74u8],
        Unit::HumidityUnit(..) => vec![0x48u8, 0x75u8, 0x6Du8, 0x69u8, 0x64u8, 0x69u8, 0x74u8, 0x79u8, 0x55u8, 0x6Eu8, 0x69u8, 0x74u8],
    };
    assert(r@ =~= unit_variant_name(*u));
    r
}

/// Builds the unit's inner tag for the structured dump.
pub fn unit_inner_bytes(u: &Unit) -> (r: Vec<u8>)
    ensures
        r@ == unit_inner_name(*u),
{
    let r: Vec<u8> = match u {
        Unit::TemperatureUnit(TemperatureUnit::Celsius) => vec![0x43u8, 0x65u8, 0x6Cu8, 0x73u8, 0x69u8, 0x75u8, 0x73u8],
        Unit::TemperatureUnit(TemperatureUnit::Kelvin) => vec![0x4Bu8, 0x65u8, 0x6Cu8, 0x76u8, 0x69u8, 0x6Eu8],
        Unit::PressureUnit(PressureUnit::Pascal) => vec![0x50u8, 0x61u8, 0x73u8, 0x63u8, 0x61u8, 0x6Cu8],
        Unit::PressureUnit(PressureUnit::Bar) => vec![0x42u8, 0x61u8, 0x72u8],
        Unit::HumidityUnit(HumidityUnit::Absolute) => vec![0x41u8, 0x62u8, 0x73u8, 0x6Fu8, 0x6Cu8, 0x75u8, 0x74u8, 0x65u8],
        Unit::HumidityUnit(HumidityUnit::Relative) => vec![0x52u8, 0x65u8, 0x6Cu8, 0x61u8, 0x74u8, 0x69u8, 0x76u8, 0x65u8],
    };
    assert(r@ =~= unit_inner_name(*u));
    r
}

/// Appends one record as an object of the structured dump.
#[verifier::rlimit(80)]
pub fn push_json_obj(out: &mut Vec<u8>, r: &SensorOutput)
    requires
        r.timestamp.wf(),
    ensures
        final(out)@ == old(out)@ + json_obj(r.model()),
{
    let kid: Vec<u8> = vec![0x22u8, 0x69u8, 0x64u8, 0x22u8, 0x3Au8];
    let kts: Vec<u8> = vec![0x22u8, 0x74u8, 0x69u8, 0x6Du8, 0x65u8, 0x73u8, 0x74u8, 0x61u8, 0x6Du8, 0x70u8, 0x22u8, 0x3Au8];
    let kv: Vec<u8> = vec![0x22u8, 0x76u8, 0x61u8, 0x6Cu8, 0x75u8, 0x65u8, 0x22u8, 0x3Au8];
    let ku: Vec<u8> = vec![0x22u8, 0x75u8, 0x6Eu8, 0x69u8, 0x74u8, 0x22u8, 0x3Au8];
    let ks: Vec<u8> = vec![0x22u8, 0x73u8, 0x79u8, 0x6Du8, 0x62u8, 0x6Fu8, 0x6Cu8, 0x22u8, 0x3Au8];
    out.push(LBRACE);
    push_bytes(out, kid.as_slice());
    push_quoted(out, r.id.as_slice());
    out.push(COMMA);
    push_bytes(out, kts.as_slice());
    out.push(QUOTE);
    push_timestamp(out, &r.timestamp);
    out.push(QUOTE);
    out.push(COMMA);
    push_bytes(out, kv.as_slice());
    let v = centi_to_dec(r.value_centi);
    push_bytes(out, v.as_slice());
    out.push(COMMA);
    push_bytes(out, ku.as_slice());
    out.push(LBRACE);
    let vn = unit_variant_bytes(&r.unit);
    push_quoted(out, vn.as_slice());
    out.push(COLON);
    let inn = unit_inner_bytes(&r.unit);
    push_quoted(out, inn.as_slice());
    out.push(RBRACE);
    out.push(COMMA);
    push_bytes(out, ks.as_slice());
    push_quoted(out, r.symbol.as_slice());
    out.push(RBRACE);
    assert(kid@ =~= key_id());
    assert(kts@ =~= key_timestamp());
    assert(kv@ =~= key_value());
    assert(ku@ =~= key_unit());
    assert(ks@ =~= key_symbol());
    assert(out@ =~= old(out)@ + json_obj(r.model()));
}

/// The whole history as one structured dump.
pub fn json_file_bytes(readings: &Vec<SensorOutput>) -> (r: Vec<u8>)
    requires
        forall|i: int| 0 <= i < readings@.len() ==> (#[trigger] readings@[i]).timestamp.wf(),
    ensures
        r@ == json_file(models(readings@)),
{
    let mut out: Vec<u8> = Vec::new();
    out.push(LBRACKET);
    let mut i: usize = 0;
    while i < readings.len()
        invariant
            i <= readings@.len(),
            forall|k: int| 0 <= k < readings@.len() ==> (#[trigger] readings@[k]).timestamp.wf(),
            out@ == seq![LBRACKET] + json_objs(models(readings@).take(i as int)),
        decreases readings@.len() - i,
    {
        if i > 0 {
            out.push(COMMA);
        }
        push_json_obj(&mut out, &readings[i]);
        proof {
            lemma_json_objs_snoc(models(readings@).take(i as int), readings@[i as int].model());
            assert(models(readings@).take(i + 1) =~= models(readings@).take(i as int).push(
                readings@[i as int].model(),
            ));
            assert(out@ =~= seq![LBRACKET] + json_objs(models(readings@).take(i + 1)));
        }
        i = i + 1;
    }
    out.push(RBRACKET);
    assert(models(readings@).take(readings@.len() as int) =~= models(readings@));
    assert(out@ =~= json_file(models(readings@)));
    out
}

/// One reading's console line: the time of day in brackets, the sensor id
/// and the value with its unit symbol.
pub open spec fn console_line(m: ReadingModel) -> Seq<u8> {
    seq![LBRACKET] + clock_bytes(m.timestamp) + seq![RBRACKET] + seq![0x20u8, 0x53u8, 0x65u8, 0x6Eu8, 0x73u8, 0x6Fu8, 0x72u8, 0x20u8] + m.id + seq![0x3Au8, 0x20u8]
        + centi_bytes(m.value as int) + m.symbol
}

/// Builds one reading's console line.
pub fn console_line_bytes(r: &SensorOutput) -> (out: Vec<u8>)
    requires
        r.timestamp.wf(),
    ensures
        out@ == console_line(r.model()),
{
    let label: Vec<u8> = vec![0x20u8, 0x53u8, 0x65u8, 0x6Eu8, 0x73u8, 0x6Fu8, 0x72u8, 0x20u8];
    let sep: Vec<u8> = vec![0x3Au8, 0x20u8];
    let mut out: Vec<u8> = Vec::new();
    out.push(LBRACKET);
    push_clock(&mut out, &r.timestamp);
    out.push(RBRACKET);
    push_bytes(&mut out, label.as_slice());
    push_bytes(&mut out, r.id.as_slice());
    push_bytes(&mut out, sep.as_slice());
    let v = centi_to_dec(r.value_centi);
    push_bytes(&mut out, v.as_slice());
    push_bytes(&mut out, r.symbol.as_slice());
    assert(label@ =~= seq![0x20u8, 0x53u8, 0x65u8, 0x6Eu8, 0x73u8, 0x6Fu8, 0x72u8, 0x20u8]);
    assert(sep@ =~= seq![0x3Au8, 0x20u8]);
    assert(out@ =~= console_line(r.model()));
    out
}

/// The unit display strings are plain, nonempty text: no delimiter, quote
/// or escape occurs in any of them.
pub proof fn lemma_unit_symbol_wf(u: Unit)
    ensures
        field_safe(unit_symbol(u)),
        unit_symbol(u).len() >= 1,
{
    let t = unit_symbol(u);
    match u {
        Unit::TemperatureUnit(TemperatureUnit::Celsius) => {
            assert(t.len() == 3);
        },
        Unit::TemperatureUnit(TemperatureUnit::Kelvin) => {
            assert(t.len() == 1);
        },
        Unit::PressureUnit(PressureUnit::Pascal) => {
            assert(t.len() == 2);
        },
        Unit::PressureUnit(PressureUnit::Bar) => {
            assert(t.len() == 3);
        },
        Unit::HumidityUnit(HumidityUnit::Absolute) => {
            assert(t.len() == 5);
        },
        Unit::HumidityUnit(HumidityUnit::Relative) => {
            assert(t.len() == 1);
        },
    }
}

} // verus!
