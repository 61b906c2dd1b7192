use sensor_sim::args::{FileFormat, PressureUnit};
use sensor_sim::sensor::{EnvironmentalSensor, OutputDir, SensorType, Unit};

const HEADER: &[u8] = b"id,timestamp,value,unit,symbol\n";

fn test_sensor(base_centi: i64, drift_std_centi: u64) -> EnvironmentalSensor {
    EnvironmentalSensor::new(
        SensorType::Pressure,
        b"PRSxyz".to_vec(),
        Unit::PressureUnit(PressureUnit::Bar),
        base_centi,
        drift_std_centi,
        None,
        FileFormat::Csv,
    )
}

fn run(
    s: &mut EnvironmentalSensor,
    dir: &mut OutputDir,
    ticks: u64,
    faults: Vec<u8>,
) -> Result<(), sensor_sim::sensor::PersistenceError> {
    let deltas: Vec<i64> = vec![0; ticks as usize];
    s.run_sensor(1, ticks, &deltas, dir, &faults)
}

#[test]
fn partition_rotates_after_ten_full_batches() {
    // exactly rotation threshold (10) times batch size (250) flushed
    // readings: the partition index moves from 0 to 1 and the counter
    // resets to 0
    let mut s = test_sensor(100, 0);
    let mut dir = OutputDir::new();
    run(&mut s, &mut dir, 2500, Vec::new()).unwrap();
    assert_eq!(s.history.len(), 2500);
    assert_eq!(s.outputs.len(), 0);
    assert_eq!(s.current_file_partition, 1);
    assert_eq!(s.batches_in_current_file, 0);
    // all ten batches went to the first partition; the second has not
    // been opened yet
    assert_eq!(dir.files.len(), 1);
}

#[test]
fn eleventh_batch_opens_the_next_partition() {
    let mut s = test_sensor(100, 0);
    let mut dir = OutputDir::new();
    run(&mut s, &mut dir, 2750, Vec::new()).unwrap();
    assert_eq!(s.current_file_partition, 1);
    assert_eq!(s.batches_in_current_file, 1);
    assert_eq!(dir.files.len(), 2);
    assert!(dir.files[1].starts_with(HEADER));
}

#[test]
fn failed_flush_leaves_the_buffer_untouched() {
    // an injected fault fails every attempt of the first flush call: the
    // buffered readings afterwards are identical, same readings in the
    // same order
    let mut s = test_sensor(100, 0);
    let mut dir = OutputDir::new();
    for i in 0..250 {
        s.generate_output(i);
    }
    let before: Vec<(Vec<u8>, i64)> =
        s.outputs.iter().map(|r| (r.id.clone(), r.value_centi)).collect();
    let r = s.flush_outputs(&mut dir, true);
    assert!(r.is_err());
    let after: Vec<(Vec<u8>, i64)> =
        s.outputs.iter().map(|r| (r.id.clone(), r.value_centi)).collect();
    assert_eq!(before, after);
    assert_eq!(s.outputs.len(), 250);
    assert_eq!(dir.files.len(), 0);
}

#[test]
fn retries_recover_from_transient_faults() {
    // three failing attempts, then success within the five allowed
    let mut s = test_sensor(100, 0);
    let mut dir = OutputDir::new();
    for _ in 0..250 {
        s.generate_output(0);
    }
    s.log_data(&mut dir, 3).unwrap();
    assert_eq!(s.outputs.len(), 0);
    assert_eq!(s.batches_in_current_file, 1);
    assert_eq!(dir.files.len(), 1);
}

#[test]
fn five_failed_attempts_surface_the_error() {
    let mut s = test_sensor(100, 0);
    let mut dir = OutputDir::new();
    for _ in 0..250 {
        s.generate_output(0);
    }
    let e = s.log_data(&mut dir, 5).unwrap_err();
    assert_eq!(e.partition_index, 0);
    assert_eq!(s.outputs.len(), 250);
    assert_eq!(s.batches_in_current_file, 0);
}

#[test]
fn failure_after_one_good_flush_restores_the_file() {
    // the second flush call fails fatally after one prior successful
    // flush: the partition file's content matches its pre-failure state
    // and no readings are missing from the in-memory buffer
    let mut s = test_sensor(100, 0);
    let mut dir = OutputDir::new();
    for _ in 0..250 {
        s.generate_output(0);
    }
    s.log_data(&mut dir, 0).unwrap();
    let pre_failure_file = dir.files[0].clone();
    for _ in 0..250 {
        s.generate_output(0);
    }
    let e = s.log_data(&mut dir, 5).unwrap_err();
    assert_eq!(e.partition_index, 0);
    assert_eq!(s.history.len(), 500);
    // no readings are missing from the buffer
    assert_eq!(s.outputs.len(), 250);
    for (k, r) in s.outputs.iter().enumerate() {
        assert_eq!(r.value_centi, s.history[250 + k].value_centi);
    }
    // the file still holds exactly the pre-failure content
    assert_eq!(dir.files.len(), 1);
    assert_eq!(dir.files[0], pre_failure_file);
    // the temporary backup of the pre-failure file is still there
    assert_eq!(dir.backup, Some(pre_failure_file));
}

#[test]
fn partition_file_contents_hold_header_and_rows() {
    let mut s = test_sensor(100, 0);
    let mut dir = OutputDir::new();
    run(&mut s, &mut dir, 250, Vec::new()).unwrap();
    assert_eq!(dir.files.len(), 1);
    let f = &dir.files[0];
    assert!(f.starts_with(HEADER));
    let body = &f[HEADER.len()..];
    assert_eq!(body.iter().filter(|&&b| b == b'\n').count(), 250);
    let first_line = body.split(|&b| b == b'\n').next().unwrap();
    assert_eq!(
        String::from_utf8(first_line.to_vec()).unwrap().split(',').count(),
        5
    );
}

#[test]
fn a_second_flush_appends_without_a_second_header() {
    let mut s = test_sensor(100, 0);
    let mut dir = OutputDir::new();
    run(&mut s, &mut dir, 500, Vec::new()).unwrap();
    assert_eq!(dir.files.len(), 1);
    let f = &dir.files[0];
    let text = String::from_utf8(f.clone()).unwrap();
    assert_eq!(text.matches("id,timestamp,value,unit,symbol").count(), 1);
    assert_eq!(text.matches('\n').count(), 501);
}

#[test]
fn partition_filename_carries_id_and_index() {
    let mut s = test_sensor(100, 0);
    assert_eq!(s.partition_filename(), b"PRSxyz_output_0.csv".to_vec());
    let mut dir = OutputDir::new();
    run(&mut s, &mut dir, 2500, Vec::new()).unwrap();
    assert_eq!(s.partition_filename(), b"PRSxyz_output_1.csv".to_vec());
}

#[test]
fn batch_bytes_prepends_the_header_only_for_an_empty_file() {
    let mut s = test_sensor(100, 0);
    s.generate_output(0);
    let with_header = s.batch_bytes(true);
    let without = s.batch_bytes(false);
    assert!(with_header.starts_with(HEADER));
    assert_eq!(&with_header[HEADER.len()..], &without[..]);
}

#[test]
fn final_dump_is_written_when_a_directory_is_configured() {
    let mut s = EnvironmentalSensor::new(
        SensorType::Pressure,
        b"PRSxyz".to_vec(),
        Unit::PressureUnit(PressureUnit::Bar),
        100,
        0,
        Some(".".to_string()),
        FileFormat::Csv,
    );
    let mut dir = OutputDir::new();
    run(&mut s, &mut dir, 3, Vec::new()).unwrap();
    let dump = dir.dump.expect("dump must be written");
    assert!(dump.starts_with(HEADER));
    assert_eq!(dump.iter().filter(|&&b| b == b'\n').count(), 4);
}

#[test]
fn no_dump_without_a_directory() {
    let mut s = test_sensor(100, 0);
    let mut dir = OutputDir::new();
    run(&mut s, &mut dir, 3, Vec::new()).unwrap();
    assert!(dir.dump.is_none());
}
