use sensor_sim::args::{Args, FileFormat, OutputArgs, Sensor, TemperatureUnit, TimingArgs};
use sensor_sim::sensor::SensorOutput;
use sensor_sim::timestamp::Timestamp;
use sensor_sim::sensor::{EnvironmentalSensor, OutputDir, SensorType, Unit};

fn test_sensor(base_centi: i64, drift_std_centi: u64) -> EnvironmentalSensor {
    EnvironmentalSensor::new(
        SensorType::Temperature,
        b"TMPabc".to_vec(),
        Unit::TemperatureUnit(TemperatureUnit::Celsius),
        base_centi,
        drift_std_centi,
        None,
        FileFormat::Csv,
    )
}

#[test]
fn zero_drift_keeps_every_reading_at_the_base_value() {
    // drift standard deviation zero: the degenerate deterministic case
    let mut s = test_sensor(2500, 0);
    let mut dir = OutputDir::new();
    let deltas: Vec<i64> = vec![17, -40, 999, 3, -1];
    let faults: Vec<u8> = Vec::new();
    s.run_sensor(60, 300, &deltas, &mut dir, &faults).unwrap();
    assert_eq!(s.history.len(), 5);
    for r in &s.history {
        assert_eq!(r.value_centi, 2500);
    }
}

#[test]
fn reading_count_is_duration_over_interval() {
    let cases: [(u64, u64, usize); 5] =
        [(60, 300, 5), (60, 250, 4), (7, 100, 14), (1, 0, 0), (100, 99, 0)];
    for (interval, duration, expected) in cases {
        let mut s = test_sensor(1000, 10);
        let mut dir = OutputDir::new();
        let deltas: Vec<i64> = vec![1; duration as usize];
        let faults: Vec<u8> = Vec::new();
        s.run_sensor(interval, duration, &deltas, &mut dir, &faults).unwrap();
        assert_eq!(s.history.len(), expected);
    }
}

#[test]
fn five_readings_do_not_trigger_a_flush() {
    // interval 60 and duration 300 give exactly five readings, fewer than
    // one batch, so nothing reaches the directory and all five stay
    // buffered
    let mut s = test_sensor(2000, 10);
    let mut dir = OutputDir::new();
    let deltas: Vec<i64> = vec![5, 5, 5, 5, 5];
    let faults: Vec<u8> = Vec::new();
    s.run_sensor(60, 300, &deltas, &mut dir, &faults).unwrap();
    assert_eq!(s.history.len(), 5);
    assert_eq!(s.outputs.len(), 5);
    assert_eq!(dir.files.len(), 0);
    assert_eq!(s.current_file_partition, 0);
    assert_eq!(s.batches_in_current_file, 0);
}

#[test]
fn ten_readings_from_number_and_interval() {
    // the scenario of supplying only number = 10 and interval = 5: the
    // duration is inferred as 50 and the loop runs exactly ten times
    let mut t = TimingArgs { interval: Some(5), duration: None, number: Some(10) };
    t.validate().unwrap();
    assert_eq!(t.duration, Some(50));

    let mut s = test_sensor(1500, 10);
    let mut dir = OutputDir::new();
    let deltas: Vec<i64> = vec![2; 10];
    let faults: Vec<u8> = Vec::new();
    s.run_sensor(t.interval.unwrap() as u64, t.duration.unwrap() as u64, &deltas, &mut dir, &faults)
        .unwrap();
    assert_eq!(s.history.len(), 10);
}

#[test]
fn values_follow_the_random_walk() {
    let mut s = test_sensor(1000, 10);
    let mut dir = OutputDir::new();
    let deltas: Vec<i64> = vec![7, -3, 0, 10];
    let faults: Vec<u8> = Vec::new();
    s.run_sensor(1, 4, &deltas, &mut dir, &faults).unwrap();
    let values: Vec<i64> = s.history.iter().map(|r| r.value_centi).collect();
    assert_eq!(values, vec![1007, 1004, 1004, 1014]);
}

#[test]
fn readings_carry_the_session_identity() {
    let mut s = test_sensor(1000, 0);
    let mut dir = OutputDir::new();
    let deltas: Vec<i64> = vec![0, 0];
    let faults: Vec<u8> = Vec::new();
    s.run_sensor(1, 2, &deltas, &mut dir, &faults).unwrap();
    for r in &s.history {
        assert_eq!(r.id, b"TMPabc".to_vec());
        assert_eq!(r.symbol, "°C".as_bytes().to_vec());
        assert!(matches!(r.unit, Unit::TemperatureUnit(TemperatureUnit::Celsius)));
    }
}

#[test]
fn console_line_prints_time_id_value_and_symbol() {
    let mut s = test_sensor(1234, 0);
    s.outputs.push(SensorOutput {
        id: b"TMPabc".to_vec(),
        timestamp: Timestamp { year: 2025, month: 1, day: 2, hour: 9, minute: 30, second: 7 },
        value_centi: 1234,
        unit: Unit::TemperatureUnit(TemperatureUnit::Celsius),
        symbol: "°C".as_bytes().to_vec(),
    });
    s.history.push(s.outputs[0].duplicate());
    let line = s.read_out();
    assert_eq!(String::from_utf8(line).unwrap(), "[09:30:07] Sensor TMPabc: 12.34°C");
}

#[test]
fn generated_timestamps_are_calendar_valid() {
    // the wall-clock wrapper must hand back fields in calendar ranges;
    // this fails if the raw instant were passed through unchecked
    let t = sensor_sim::timestamp::capture_timestamp();
    assert!(t.year <= 9999);
    assert!((1..=12).contains(&t.month));
    assert!((1..=31).contains(&t.day));
    assert!(t.hour <= 23);
    assert!(t.minute <= 59);
    assert!(t.second <= 59);
}

#[test]
fn session_ids_are_three_random_word_characters() {
    // the random-range wrapper must yield indexes inside the table; an
    // out-of-range draw would produce a byte outside this set
    for _ in 0..50 {
        let code = sensor_sim::utils::create_id();
        assert_eq!(code.len(), 3);
        for b in code {
            assert!(b.is_ascii_alphanumeric());
        }
    }
}

#[test]
fn builders_fix_prefix_unit_and_ranges() {
    let args = Args {
        sensor_type: Sensor::Temperature { unit: TemperatureUnit::Kelvin },
        timing_args: TimingArgs { interval: Some(1), duration: Some(1), number: Some(1) },
        output_args: OutputArgs { to_file: None, to_sql: false, format: FileFormat::Csv },
    };
    let s = sensor_sim::sensor::build_temp_sensor(args);
    assert_eq!(&s.id[..3], b"TMP");
    assert_eq!(s.id.len(), 6);
    for b in &s.id[3..] {
        assert!(b.is_ascii_alphanumeric());
    }
    assert!(matches!(s.unit, Unit::TemperatureUnit(TemperatureUnit::Kelvin)));
    assert_eq!(s.unit_symbol, b"K".to_vec());
    assert!((1000..3000).contains(&s.base_value_centi));
    assert_eq!(s.drift_std_centi, 10);
    assert!(s.history.is_empty());
    assert!(s.outputs.is_empty());
}
