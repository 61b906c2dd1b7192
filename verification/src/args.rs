//! Validated run configuration: sensor kind, units, timing and output
//! choices.
//!
//! Timing can be given as any of interval, duration and reading count.
//! Validation settles them to one canonical triple: missing values are
//! derived or defaulted deterministically, and all three together are
//! accepted only when they are mutually consistent.

use vstd::prelude::*;

verus! {

#[derive(Clone, Copy, Debug, PartialEq, Eq, Structural)]
pub enum TemperatureUnit {
    Celsius,
    Kelvin,
}

#[derive(Clone, Copy, Debug, PartialEq, Eq, Structural)]
pub enum PressureUnit {
    Pascal,
    Bar,
}

#[derive(Clone, Copy, Debug, PartialEq, Eq, Structural)]
pub enum HumidityUnit {
    Absolute,
    Relative,
}

/// The kind of sensor simulated, with the unit its readings use.
#[derive(Clone, Copy, Debug, PartialEq, Eq, Structural)]
pub enum Sensor {
    Temperature { unit: TemperatureUnit },
    Pressure { unit: PressureUnit },
    Humidity { unit: HumidityUnit },
}

/// The layout of the files the run produces.
#[derive(Clone, Copy, Debug, PartialEq, Eq, Structural)]
pub enum FileFormat {
    Csv,
    Json,
}

/// Why a timing combination was refused.
#[derive(Clone, Copy, Debug, PartialEq, Eq, Structural)]
pub enum ValidationError {
    /// None of interval, duration and number was supplied.
    NoTimingArgs,
    /// All three were supplied and `interval * number != duration`, or a
    /// positive reading count was asked of a duration it cannot fit.
    IncompatibleTimingArgs,
    /// The supplied or derived interval is zero, under which the sampling
    /// loop could never finish.
    ZeroInterval,
    /// The derived duration exceeds what the duration field can carry.
    DurationOverflow,
}

/// How data generation is paced: the sampling interval and total duration
/// in seconds, and the number of readings.
#[derive(Clone, Copy, Debug)]
pub struct TimingArgs {
    pub interval: Option<u16>,
    pub duration: Option<u16>,
    pub number: Option<u16>,
}

/// Where output goes: an optional directory for files, whether a database
/// is used, and the file layout.
#[derive(Clone, Debug)]
pub struct OutputArgs {
    /// The directory that partition files and the final dump are written
    /// to, when file output is wanted.
    pub to_file: Option<String>,
    /// Whether readings should also go to a database.
    pub to_sql: bool,
    pub format: FileFormat,
}

/// The full validated run configuration.
#[derive(Clone, Debug)]
pub struct Args {
    pub sensor_type: Sensor,
    pub timing_args: TimingArgs,
    pub output_args: OutputArgs,
}

/// The canonical timing rule, case by case.  Interval alone: the duration
/// defaults to 300 seconds and the count is derived as `300 / interval`.
/// Duration alone: the interval defaults to 60 seconds and the count is
/// derived as `duration / 60`.  Count alone: the interval defaults to 60
/// seconds and the duration is derived as `number * 60`.  Interval and
/// duration: the count is derived as `duration / interval` rounded down.
/// Interval and count: the duration is derived as `interval * number`.
/// Duration and count: the interval is derived as `duration / number`
/// rounded down.  All three together are accepted only when
/// `interval * number == duration` exactly.  A zero or underivable
/// interval, and a derived duration beyond the field's range, are
/// refused.
pub open spec fn canonical_timing(t: TimingArgs) -> Result<TimingArgs, ValidationError> {
    match (t.interval, t.duration, t.number) {
        (None, None, None) => Err(ValidationError::NoTimingArgs),
        (Some(i), None, None) => {
            if i == 0 {
                Err(ValidationError::ZeroInterval)
            } else {
                Ok(
                    TimingArgs {
                        interval: Some(i),
                        duration: Some(300),
                        number: Some((300 as int / i as int) as u16),
                    },
                )
            }
        },
        (None, Some(d), None) => Ok(
            TimingArgs { interval: Some(60), duration: Some(d), number: Some((d / 60) as u16) },
        ),
        (None, None, Some(n)) => {
            if n as int * 60 > u16::MAX {
                Err(ValidationError::DurationOverflow)
            } else {
                Ok(
                    TimingArgs {
                        interval: Some(60),
                        duration: Some((n * 60) as u16),
                        number: Some(n),
                    },
                )
            }
        },
        (Some(i), Some(d), None) => {
            if i == 0 {
                Err(ValidationError::ZeroInterval)
            } else {
                Ok(
                    TimingArgs {
                        interval: Some(i),
                        duration: Some(d),
                        number: Some((d as int / i as int) as u16),
                    },
                )
            }
        },
        (Some(i), None, Some(n)) => {
            if i == 0 {
                Err(ValidationError::ZeroInterval)
            } else if i as int * n as int > u16::MAX {
                Err(ValidationError::DurationOverflow)
            } else {
                Ok(
                    TimingArgs {
                        interval: Some(i),
                        duration: Some((i * n) as u16),
                        number: Some(n),
                    },
                )
            }
        },
        (None, Some(d), Some(n)) => {
            if n == 0 {
                if d == 0 {
                    Ok(TimingArgs { interval: Some(60), duration: Some(0), number: Some(0) })
                } else {
                    Err(ValidationError::IncompatibleTimingArgs)
                }
            } else if d as int / n as int == 0 {
                Err(ValidationError::ZeroInterval)
            } else {
                Ok(
                    TimingArgs {
                        interval: Some((d as int / n as int) as u16),
                        duration: Some(d),
                        number: Some(n),
                    },
                )
            }
        },
        (Some(i), Some(d), Some(n)) => {
            if i == 0 {
                Err(ValidationError::ZeroInterval)
            } else if i as int * n as int == d as int {
                Ok(t)
            } else {
                Err(ValidationError::IncompatibleTimingArgs)
            }
        },
    }
}

/// The product of two sixteen-bit values fits in thirty-two bits.
proof fn lemma_u16_product_fits(i: u16, n: u16)
    ensures
        i as int * n as int <= 0xFFFE_0001,
{
    assert(i as int * n as int <= 0xFFFF * 0xFFFF) by (nonlinear_arith)
        requires
            i as int <= 0xFFFF,
            n as int <= 0xFFFF,
    ;
}

impl TimingArgs {
    /// Settles the timing arguments to the canonical triple, or reports why
    /// they cannot be settled, leaving them unchanged.
    pub fn validate(&mut self) -> (r: Result<(), ValidationError>)
        ensures
            match canonical_timing(*old(self)) {
                Ok(t) => r is Ok && *final(self) == t,
                Err(e) => r == Err::<(), ValidationError>(e) && *final(self) == *old(self),
            },
    {
        match (self.interval, self.duration, self.number) {
            (None, None, None) => Err(ValidationError::NoTimingArgs),
            (Some(i), None, None) => {
                if i == 0 {
                    Err(ValidationError::ZeroInterval)
                } else {
                    self.duration = Some(300);
                    self.number = Some(300 / i);
                    Ok(())
                }
            },
            (None, Some(d), None) => {
                self.interval = Some(60);
                self.number = Some(d / 60);
                Ok(())
            },
            (None, None, Some(n)) => {
                if n > u16::MAX / 60 {
                    Err(ValidationError::DurationOverflow)
                } else {
                    self.interval = Some(60);
                    self.duration = Some(n * 60);
                    Ok(())
                }
            },
            (Some(i), Some(d), None) => {
                if i == 0 {
                    Err(ValidationError::ZeroInterval)
                } else {
                    self.number = Some(d / i);
                    Ok(())
                }
            },
            (Some(i), None, Some(n)) => {
                if i == 0 {
                    Err(ValidationError::ZeroInterval)
                } else if ({
                    proof {
                        lemma_u16_product_fits(i, n);
                    }
                    (i as u32) * (n as u32) > u16::MAX as u32
                }) {
                    Err(ValidationError::DurationOverflow)
                } else {
                    self.duration = Some(i * n);
                    Ok(())
                }
            },
            (None, Some(d), Some(n)) => {
                if n == 0 {
                    if d == 0 {
                        self.interval = Some(60);
                        Ok(())
                    } else {
                        Err(ValidationError::IncompatibleTimingArgs)
                    }
                } else if d / n == 0 {
                    Err(ValidationError::ZeroInterval)
                } else {
                    self.interval = Some(d / n);
                    Ok(())
                }
            },
            (Some(i), Some(d), Some(n)) => {
                if i == 0 {
                    Err(ValidationError::ZeroInterval)
                } else if ({
                    proof {
                        lemma_u16_product_fits(i, n);
                    }
                    (i as u32) * (n as u32) == d as u32
                }) {
                    Ok(())
                } else {
                    Err(ValidationError::IncompatibleTimingArgs)
                }
            },
        }
    }
}

/// Settles the timing arguments of an already parsed configuration, handing
/// back the configuration with the canonical triple in place.
pub fn parse_and_validate(args: Args) -> (r: Result<Args, ValidationError>)
    ensures
        match canonical_timing(args.timing_args) {
            Ok(t) => match r {
                Ok(out) => out.timing_args == t && out.sensor_type == args.sensor_type
                    && out.output_args == args.output_args,
                Err(_) => false,
            },
            Err(e) => r == Err::<Args, ValidationError>(e),
        },
{
    let mut out = args;
    match out.timing_args.validate() {
        Ok(_) => Ok(out),
        Err(e) => Err(e),
    }
}

} // verus!
