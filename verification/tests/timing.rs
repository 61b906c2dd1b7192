use sensor_sim::args::{
    Args, FileFormat, HumidityUnit, OutputArgs, Sensor, TemperatureUnit, TimingArgs,
    ValidationError,
};

fn timing(i: Option<u16>, d: Option<u16>, n: Option<u16>) -> TimingArgs {
    TimingArgs { interval: i, duration: d, number: n }
}

#[test]
fn no_timing_arguments_are_rejected() {
    let mut t = timing(None, None, None);
    assert_eq!(t.validate(), Err(ValidationError::NoTimingArgs));
}

#[test]
fn interval_alone_gets_default_duration() {
    let mut t = timing(Some(60), None, None);
    assert_eq!(t.validate(), Ok(()));
    assert_eq!(t.interval, Some(60));
    assert_eq!(t.duration, Some(300));
    assert_eq!(t.number, Some(5));
}

#[test]
fn duration_alone_gets_default_interval() {
    let mut t = timing(None, Some(300), None);
    assert_eq!(t.validate(), Ok(()));
    assert_eq!(t.interval, Some(60));
    assert_eq!(t.duration, Some(300));
    assert_eq!(t.number, Some(5));
}

#[test]
fn number_alone_gets_default_interval_and_derived_duration() {
    let mut t = timing(None, None, Some(10));
    assert_eq!(t.validate(), Ok(()));
    assert_eq!(t.interval, Some(60));
    assert_eq!(t.duration, Some(600));
    assert_eq!(t.number, Some(10));
}

#[test]
fn number_and_interval_derive_duration() {
    // Only number and interval supplied: the duration is inferred as their
    // product, here 50 seconds.
    let mut t = timing(Some(5), None, Some(10));
    assert_eq!(t.validate(), Ok(()));
    assert_eq!(t.duration, Some(50));
    assert_eq!(t.interval, Some(5));
    assert_eq!(t.number, Some(10));
}

#[test]
fn interval_and_duration_derive_number() {
    let mut t = timing(Some(7), Some(100), None);
    assert_eq!(t.validate(), Ok(()));
    assert_eq!(t.number, Some(14));
}

#[test]
fn duration_and_number_derive_interval() {
    let mut t = timing(None, Some(50), Some(10));
    assert_eq!(t.validate(), Ok(()));
    assert_eq!(t.interval, Some(5));
}

#[test]
fn consistent_triple_is_accepted() {
    let mut t = timing(Some(5), Some(50), Some(10));
    assert_eq!(t.validate(), Ok(()));
    assert_eq!(t.interval, Some(5));
    assert_eq!(t.duration, Some(50));
    assert_eq!(t.number, Some(10));
}

#[test]
fn inconsistent_triple_is_rejected() {
    let mut t = timing(Some(5), Some(51), Some(10));
    assert_eq!(t.validate(), Err(ValidationError::IncompatibleTimingArgs));
    // the arguments are left untouched on rejection
    assert_eq!(t.interval, Some(5));
    assert_eq!(t.duration, Some(51));
    assert_eq!(t.number, Some(10));
}

#[test]
fn zero_interval_is_rejected() {
    let mut t = timing(Some(0), None, None);
    assert_eq!(t.validate(), Err(ValidationError::ZeroInterval));
}

#[test]
fn derived_zero_interval_is_rejected() {
    // ten readings cannot fit a five-second run with a positive interval
    let mut t = timing(None, Some(5), Some(10));
    assert_eq!(t.validate(), Err(ValidationError::ZeroInterval));
}

#[test]
fn oversized_derived_duration_is_rejected() {
    let mut t = timing(Some(1000), None, Some(1000));
    assert_eq!(t.validate(), Err(ValidationError::DurationOverflow));
}

#[test]
fn zero_number_with_positive_duration_is_rejected() {
    let mut t = timing(None, Some(300), Some(0));
    assert_eq!(t.validate(), Err(ValidationError::IncompatibleTimingArgs));
}

#[test]
fn parse_and_validate_settles_the_triple() {
    let args = Args {
        sensor_type: Sensor::Temperature { unit: TemperatureUnit::Celsius },
        timing_args: timing(Some(60), Some(300), None),
        output_args: OutputArgs { to_file: None, to_sql: false, format: FileFormat::Csv },
    };
    let out = sensor_sim::args::parse_and_validate(args).unwrap();
    assert_eq!(out.timing_args.number, Some(5));
    assert!(matches!(out.sensor_type, Sensor::Temperature { unit: TemperatureUnit::Celsius }));
}

#[test]
fn parse_and_validate_propagates_rejections() {
    let args = Args {
        sensor_type: Sensor::Humidity { unit: HumidityUnit::Relative },
        timing_args: timing(None, None, None),
        output_args: OutputArgs { to_file: None, to_sql: false, format: FileFormat::Json },
    };
    assert_eq!(
        sensor_sim::args::parse_and_validate(args).err(),
        Some(ValidationError::NoTimingArgs)
    );
}
