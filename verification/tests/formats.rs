use sensor_sim::args::{HumidityUnit, PressureUnit, TemperatureUnit};
use sensor_sim::codec::{csv_file_bytes, json_file_bytes, parse_csv_bytes};
use sensor_sim::digits::{centi_to_dec, dec_to_centi, dec_to_u64, u64_to_dec};
use sensor_sim::sensor::{SensorOutput, Unit};
use sensor_sim::timestamp::Timestamp;
use sensor_sim::utils::{serialize_timestamp, serialize_unit};

fn ts(y: u16, mo: u8, d: u8, h: u8, mi: u8, s: u8) -> Timestamp {
    Timestamp { year: y, month: mo, day: d, hour: h, minute: mi, second: s }
}

fn reading(id: &str, t: Timestamp, value_centi: i64, unit: Unit, symbol: &str) -> SensorOutput {
    SensorOutput {
        id: id.as_bytes().to_vec(),
        timestamp: t,
        value_centi,
        unit,
        symbol: symbol.as_bytes().to_vec(),
    }
}

#[test]
fn decimal_rendering_is_exact() {
    assert_eq!(u64_to_dec(0), b"0".to_vec());
    assert_eq!(u64_to_dec(42), b"42".to_vec());
    assert_eq!(u64_to_dec(10000), b"10000".to_vec());
    assert_eq!(u64_to_dec(u64::MAX), b"18446744073709551615".to_vec());
}

#[test]
fn hundredths_rendering_is_exact() {
    assert_eq!(centi_to_dec(1234), b"12.34".to_vec());
    assert_eq!(centi_to_dec(-307), b"-3.07".to_vec());
    assert_eq!(centi_to_dec(0), b"0.00".to_vec());
    assert_eq!(centi_to_dec(-5), b"-0.05".to_vec());
    assert_eq!(centi_to_dec(100), b"1.00".to_vec());
    assert_eq!(centi_to_dec(i64::MIN), b"-92233720368547758.08".to_vec());
}

#[test]
fn decimal_parsing_inverts_rendering() {
    for v in [0u64, 7, 99, 100, 12345678901234567, u64::MAX] {
        assert_eq!(dec_to_u64(&u64_to_dec(v)), Some(v));
    }
    assert_eq!(dec_to_u64(b""), None);
    assert_eq!(dec_to_u64(b"12x"), None);
    assert_eq!(dec_to_u64(b"99999999999999999999999"), None);
}

#[test]
fn hundredths_parsing_inverts_rendering() {
    for v in [0i64, 1234, -307, -5, i64::MAX, i64::MIN, 100, -100] {
        assert_eq!(dec_to_centi(&centi_to_dec(v)), Some(v));
    }
    assert_eq!(dec_to_centi(b"12"), None);
    assert_eq!(dec_to_centi(b"12.3"), None);
    assert_eq!(dec_to_centi(b"a.00"), None);
}

#[test]
fn timestamp_rendering_is_exact() {
    assert_eq!(
        serialize_timestamp(&ts(2025, 1, 2, 3, 4, 5)),
        b"2025-01-02 03:04:05".to_vec()
    );
    assert_eq!(
        serialize_timestamp(&ts(999, 12, 31, 23, 59, 59)),
        b"0999-12-31 23:59:59".to_vec()
    );
}

#[test]
fn unit_tags_are_exact() {
    assert_eq!(
        serialize_unit(&Unit::TemperatureUnit(TemperatureUnit::Celsius)),
        b"temperature_celsius".to_vec()
    );
    assert_eq!(
        serialize_unit(&Unit::TemperatureUnit(TemperatureUnit::Kelvin)),
        b"temperature_kelvin".to_vec()
    );
    assert_eq!(
        serialize_unit(&Unit::PressureUnit(PressureUnit::Pascal)),
        b"pressure_pascal".to_vec()
    );
    assert_eq!(serialize_unit(&Unit::PressureUnit(PressureUnit::Bar)), b"pressure_bar".to_vec());
    assert_eq!(
        serialize_unit(&Unit::HumidityUnit(HumidityUnit::Absolute)),
        b"humidity_absolute".to_vec()
    );
    assert_eq!(
        serialize_unit(&Unit::HumidityUnit(HumidityUnit::Relative)),
        b"humidity_relative".to_vec()
    );
}

#[test]
fn tabular_file_layout_is_exact() {
    let rows = vec![reading(
        "TMPabc",
        ts(2025, 6, 7, 8, 9, 10),
        2071,
        Unit::TemperatureUnit(TemperatureUnit::Celsius),
        "°C",
    )];
    let f = csv_file_bytes(&rows);
    assert_eq!(
        String::from_utf8(f).unwrap(),
        "id,timestamp,value,unit,symbol\nTMPabc,2025-06-07 08:09:10,20.71,temperature_celsius,°C\n"
    );
}

#[test]
fn tabular_round_trip_preserves_every_column() {
    // serialize to the tabular format and parse back: identical id,
    // timestamp string, value and symbol for each record, in order
    let rows = vec![
        reading(
            "TMPabc",
            ts(2025, 6, 7, 8, 9, 10),
            2071,
            Unit::TemperatureUnit(TemperatureUnit::Celsius),
            "°C",
        ),
        reading(
            "PRSdef",
            ts(1999, 12, 31, 23, 59, 59),
            -99,
            Unit::PressureUnit(PressureUnit::Bar),
            "bar",
        ),
        reading(
            "HMDghi",
            ts(2000, 2, 29, 0, 0, 0),
            5500,
            Unit::HumidityUnit(HumidityUnit::Absolute),
            "g/m^3",
        ),
    ];
    let f = csv_file_bytes(&rows);
    let parsed = parse_csv_bytes(&f).expect("the file must parse");
    assert_eq!(parsed.len(), rows.len());
    for (p, r) in parsed.iter().zip(rows.iter()) {
        assert_eq!(p.id, r.id);
        assert_eq!(p.timestamp, serialize_timestamp(&r.timestamp));
        assert_eq!(p.value_centi, r.value_centi);
        assert_eq!(p.unit, r.unit);
        assert_eq!(p.symbol, r.symbol);
    }
}

#[test]
fn malformed_tabular_input_is_refused() {
    assert_eq!(parse_csv_bytes(b"").map(|v| v.len()), None);
    assert_eq!(parse_csv_bytes(b"not,a,header\n").map(|v| v.len()), None);
    let missing_column = b"id,timestamp,value,unit,symbol\na,b,1.00,pressure_bar\n";
    assert_eq!(parse_csv_bytes(missing_column).map(|v| v.len()), None);
    let bad_value = b"id,timestamp,value,unit,symbol\na,b,xx,pressure_bar,bar\n";
    assert_eq!(parse_csv_bytes(bad_value).map(|v| v.len()), None);
    let bad_unit = b"id,timestamp,value,unit,symbol\na,b,1.00,pressure_psi,psi\n";
    assert_eq!(parse_csv_bytes(bad_unit).map(|v| v.len()), None);
}

#[test]
fn empty_history_gives_a_bare_header() {
    let rows: Vec<SensorOutput> = Vec::new();
    let f = csv_file_bytes(&rows);
    assert_eq!(f, b"id,timestamp,value,unit,symbol\n".to_vec());
    assert_eq!(parse_csv_bytes(&f).map(|v| v.len()), Some(0));
}

#[test]
fn structured_dump_layout_is_exact() {
    let rows = vec![
        reading(
            "HMDaaa",
            ts(2025, 3, 4, 5, 6, 7),
            4950,
            Unit::HumidityUnit(HumidityUnit::Relative),
            "%",
        ),
        reading(
            "HMDaaa",
            ts(2025, 3, 4, 5, 6, 8),
            -25,
            Unit::HumidityUnit(HumidityUnit::Relative),
            "%",
        ),
    ];
    let f = json_file_bytes(&rows);
    let expected = "[\
{\"id\":\"HMDaaa\",\"timestamp\":\"2025-03-04 05:06:07\",\"value\":49.50,\
\"unit\":{\"HumidityUnit\":\"Relative\"},\"symbol\":\"%\"},\
{\"id\":\"HMDaaa\",\"timestamp\":\"2025-03-04 05:06:08\",\"value\":-0.25,\
\"unit\":{\"HumidityUnit\":\"Relative\"},\"symbol\":\"%\"}\
]";
    assert_eq!(String::from_utf8(f).unwrap(), expected);
}

#[test]
fn empty_structured_dump_is_an_empty_array() {
    let rows: Vec<SensorOutput> = Vec::new();
    assert_eq!(json_file_bytes(&rows), b"[]".to_vec());
}
