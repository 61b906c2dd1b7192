//! The sensor session: reading values, the sampling loop, and the batched,
//! partition-rotating persistence protocol.

use crate::args::{Args, FileFormat, HumidityUnit, PressureUnit, Sensor, TemperatureUnit};
use crate::codec::{
    console_line, console_line_bytes, csv_file, csv_file_bytes, csv_rows, field_safe,
    header_bytes, json_file, json_file_bytes, lemma_csv_rows_concat, lemma_csv_rows_snoc,
    lemma_unit_symbol_wf,
    push_header, push_row, unit_symbol, unit_symbol_bytes,
};
use crate::digits::{dec_digits, u64_to_dec};
use crate::timestamp::{capture_timestamp, Timestamp};
use crate::utils::{create_id, random_range_u64};
use vstd::prelude::*;

verus! {

/// The unit a reading is expressed in, tagged by sensor kind.
#[derive(Clone, Copy, Debug, PartialEq, Eq, Structural)]
pub enum Unit {
    TemperatureUnit(TemperatureUnit),
    PressureUnit(PressureUnit),
    HumidityUnit(HumidityUnit),
}

/// A sensor identity; reserved for richer naming schemes.
#[derive(Debug)]
pub struct SensorID {}

/// The sensor kind a session simulates.
#[derive(Clone, Copy, Debug, PartialEq, Eq, Structural)]
pub enum SensorType {
    Temperature,
    Pressure,
    Humidity,
}

/// One generated, timestamped sample.
#[derive(Debug)]
pub struct SensorOutput {
    pub id: Vec<u8>,
    pub timestamp: Timestamp,
    /// The sampled value in hundredths of the unit.
    pub value_centi: i64,
    pub unit: Unit,
    /// The unit's display string, UTF-8 encoded.
    pub symbol: Vec<u8>,
}

/// The mathematical content of one reading.
pub ghost struct ReadingModel {
    pub id: Seq<u8>,
    pub timestamp: Timestamp,
    pub value: i64,
    pub unit: Unit,
    pub symbol: Seq<u8>,
}

impl ReadingModel {
    /// What every reading that reaches a file satisfies: delimiter-free
    /// text fields and a calendar-valid timestamp.
    pub open spec fn wf(self) -> bool {
        &&& field_safe(self.id)
        &&& self.timestamp.wf()
        &&& field_safe(self.symbol)
    }
}

impl SensorOutput {
    pub open spec fn model(self) -> ReadingModel {
        ReadingModel {
            id: self.id@,
            timestamp: self.timestamp,
            value: self.value_centi,
            unit: self.unit,
            symbol: self.symbol@,
        }
    }

    /// A fresh reading with the same content.
    pub fn duplicate(&self) -> (r: SensorOutput)
        ensures
            r.model() == self.model(),
    {
        SensorOutput {
            id: copy_bytes(self.id.as_slice()),
            timestamp: self.timestamp,
            value_centi: self.value_centi,
            unit: self.unit,
            symbol: copy_bytes(self.symbol.as_slice()),
        }
    }
}

/// The readings of a buffer or history, as mathematical values.
pub open spec fn models(s: Seq<SensorOutput>) -> Seq<ReadingModel> {
    s.map_values(|r: SensorOutput| r.model())
}

/// A fresh vector holding the same bytes.
pub fn copy_bytes(s: &[u8]) -> (r: Vec<u8>)
    ensures
        r@ == s@,
{
    let mut r: Vec<u8> = Vec::new();
    let mut i: usize = 0;
    while i < s.len()
        invariant
            i <= s@.len(),
            r@ == s@.take(i as int),
        decreases s@.len() - i,
    {
        let b = s[i];
        r.push(b);
        assert(s@.take(i + 1) =~= s@.take(i as int).push(b));
        i = i + 1;
    }
    assert(s@.take(s@.len() as int) =~= s@);
    r
}


/// How many flushed batches one partition file receives before the session
/// rotates to the next partition.
pub const MAX_BATCHES_PER_FILE: usize = 10;

/// How many buffered readings trigger a flush.
pub const APPEND_BATCH_SIZE: usize = 250;

/// An append that could not be made durable, after the backup was restored.
#[derive(Clone, Copy, Debug, PartialEq, Eq, Structural)]
pub struct PersistenceError {
    /// The partition whose append failed.
    pub partition_index: usize,
}

/// The session's output directory: the partition files by index, the
/// temporary backup taken during a flush, and the final dump.
#[derive(Debug)]
pub struct OutputDir {
    pub files: Vec<Vec<u8>>,
    pub backup: Option<Vec<u8>>,
    pub dump: Option<Vec<u8>>,
}

impl OutputDir {
    /// The bytes of each partition file, by partition index.
    pub open spec fn contents(self) -> Seq<Seq<u8>> {
        self.files@.map_values(|f: Vec<u8>| f@)
    }

    pub open spec fn backup_view(self) -> Option<Seq<u8>> {
        match self.backup {
            Some(b) => Some(b@),
            None => None,
        }
    }

    pub open spec fn dump_view(self) -> Option<Seq<u8>> {
        match self.dump {
            Some(d) => Some(d@),
            None => None,
        }
    }

    /// An empty directory: no partition file, no backup, no dump.
    pub fn new() -> (d: OutputDir)
        ensures
            d.contents() == Seq::<Seq<u8>>::empty(),
            d.backup_view() is None,
            d.dump_view() is None,
    {
        let d = OutputDir { files: Vec::new(), backup: None, dump: None };
        assert(d.contents() =~= Seq::<Seq<u8>>::empty());
        d
    }
}

/// A partition file as the protocol writes it: the column-name line first.
pub open spec fn is_headered(f: Seq<u8>) -> bool {
    f.len() >= header_bytes().len() && f.take(header_bytes().len() as int) == header_bytes()
}

/// A partition file's rows: what stands after the column-name line.
pub open spec fn body_of(f: Seq<u8>) -> Seq<u8> {
    if f.len() >= header_bytes().len() {
        f.skip(header_bytes().len() as int)
    } else {
        Seq::empty()
    }
}

/// All rows on disk, in partition order.
pub open spec fn stored_rows(files: Seq<Seq<u8>>) -> Seq<u8>
    decreases files.len(),
{
    if files.len() == 0 {
        Seq::empty()
    } else {
        stored_rows(files.drop_last()) + body_of(files.last())
    }
}

/// The bookkeeping step after one successful flush: count the batch, and
/// rotate to the next partition when the active one has received its
/// maximum allowed flushes.
pub open spec fn commit_step(p: int, c: int) -> (int, int) {
    if c + 1 == MAX_BATCHES_PER_FILE {
        (p + 1, 0)
    } else {
        (p, c + 1)
    }
}

/// The bookkeeping state after `f` successful flushes of a fresh session.
pub open spec fn iter_commit(f: nat) -> (int, int)
    decreases f,
{
    if f == 0 {
        (0int, 0int)
    } else {
        commit_step(iter_commit((f - 1) as nat).0, iter_commit((f - 1) as nat).1)
    }
}

/// The environmental sensor session: identity, generation parameters, the
/// unflushed buffer, the full-run history and the rotation state.
#[derive(Debug)]
pub struct EnvironmentalSensor {
    pub category: SensorType,
    pub id: Vec<u8>,
    /// The unflushed readings, cleared only once a flush is confirmed.
    pub outputs: Vec<SensorOutput>,
    /// Every reading of the run, in generation order.
    pub history: Vec<SensorOutput>,
    pub unit: Unit,
    pub unit_symbol: Vec<u8>,
    /// The value a run starts from, in hundredths of the unit.
    pub base_value_centi: i64,
    /// The standard deviation of the per-tick drift, in hundredths.
    pub drift_std_centi: u64,
    pub file_path: Option<String>,
    pub file_format: FileFormat,
    pub current_file_partition: usize,
    pub batches_in_current_file: usize,
}

impl EnvironmentalSensor {
    /// The unflushed readings.
    pub open spec fn buffer(self) -> Seq<ReadingModel> {
        models(self.outputs@)
    }

    /// Every reading generated this run, in order.
    pub open spec fn all_readings(self) -> Seq<ReadingModel> {
        models(self.history@)
    }

    /// The readings already flushed: the history with the unflushed suffix
    /// removed.
    pub open spec fn flushed(self) -> Seq<ReadingModel> {
        self.all_readings().take(self.all_readings().len() - self.buffer().len())
    }

    /// A reading carries the session's identity, unit and symbol, and a
    /// calendar-valid timestamp.
    pub open spec fn reading_matches(self, m: ReadingModel) -> bool {
        &&& m.id == self.id@
        &&& m.unit == self.unit
        &&& m.symbol == self.unit_symbol@
        &&& m.timestamp.wf()
    }

    /// The session invariant: plain identity text, the symbol tied to the
    /// unit, the rotation counter below the threshold, the buffer a suffix
    /// of the history, and every reading matching the session.
    pub open spec fn wf(self) -> bool {
        &&& field_safe(self.id@)
        &&& self.id@.len() >= 1
        &&& self.unit_symbol@ == unit_symbol(self.unit)
        &&& self.batches_in_current_file < MAX_BATCHES_PER_FILE
        &&& self.outputs@.len() <= self.history@.len()
        &&& self.buffer() == self.all_readings().skip(
            self.all_readings().len() - self.buffer().len(),
        )
        &&& forall|i: int|
            0 <= i < self.all_readings().len() ==> self.reading_matches(
                #[trigger] self.all_readings()[i],
            )
    }

    /// A session that has not yet generated or flushed anything.
    pub open spec fn fresh(self) -> bool {
        &&& self.outputs@.len() == 0
        &&& self.history@.len() == 0
        &&& self.current_file_partition == 0
        &&& self.batches_in_current_file == 0
    }

    /// The fixed identity and configuration of the session.
    pub open spec fn same_config(self, other: EnvironmentalSensor) -> bool {
        &&& self.category == other.category
        &&& self.id@ == other.id@
        &&& self.unit == other.unit
        &&& self.unit_symbol@ == other.unit_symbol@
        &&& self.base_value_centi == other.base_value_centi
        &&& self.drift_std_centi == other.drift_std_centi
        &&& self.file_path == other.file_path
        &&& self.file_format == other.file_format
    }

    /// The directory carries exactly the partitions the bookkeeping has
    /// opened: one file per finished or active partition.
    pub open spec fn consistent(self, dir: OutputDir) -> bool {
        dir.contents().len() == self.current_file_partition as int + (
        if self.batches_in_current_file == 0 {
            0int
        } else {
            1int
        })
    }

    /// Nothing flushed has been lost: every partition file opens with the
    /// column-name line, and the rows on disk are exactly the rows of the
    /// flushed prefix of the history.
    pub open spec fn durable(self, dir: OutputDir) -> bool {
        &&& forall|k: int| 0 <= k < dir.contents().len() ==> is_headered(#[trigger] dir.contents()[k])
        &&& stored_rows(dir.contents()) == csv_rows(self.flushed())
    }
}


/// The drift applied at one tick: the sampled perturbation, except that a
/// zero standard deviation degenerates to exactly zero drift.
pub open spec fn eff_delta(std_centi: u64, d: i64) -> int {
    if std_centi == 0 {
        0
    } else {
        d as int
    }
}

/// The value of the random walk after `j + 1` steps from the base value,
/// driven by the given per-tick drifts.
pub open spec fn walk_value(base: int, std_centi: u64, deltas: Seq<i64>, j: int) -> int
    decreases j,
{
    if j <= 0 {
        base + eff_delta(std_centi, deltas[0])
    } else {
        walk_value(base, std_centi, deltas, j - 1) + eff_delta(std_centi, deltas[j])
    }
}

/// With zero drift standard deviation the walk never moves: every value
/// equals the base value exactly, whatever was sampled.
pub proof fn lemma_zero_drift_constant(base: int, deltas: Seq<i64>, j: int)
    ensures
        walk_value(base, 0, deltas, j) == base,
    decreases j,
{
    if j > 0 {
        lemma_zero_drift_constant(base, deltas, j - 1);
    }
}

impl EnvironmentalSensor {
    /// The value the next reading will carry: the last reading's value, or
    /// the base value if none exists yet, plus the effective drift.
    pub open spec fn next_value_spec(self, d: i64) -> int {
        (if self.history@.len() == 0 {
            self.base_value_centi as int
        } else {
            self.all_readings().last().value as int
        }) + eff_delta(self.drift_std_centi, d)
    }

    /// Generates one reading at the current instant and appends it to the
    /// buffer and the history.
    pub fn generate_output(&mut self, delta_centi: i64)
        requires
            old(self).wf(),
            i64::MIN <= old(self).next_value_spec(delta_centi) <= i64::MAX,
        ensures
            final(self).wf(),
            final(self).same_config(*old(self)),
            final(self).current_file_partition == old(self).current_file_partition,
            final(self).batches_in_current_file == old(self).batches_in_current_file,
            final(self).all_readings().len() == old(self).all_readings().len() + 1,
            final(self).all_readings().take(old(self).all_readings().len() as int) == old(
                self,
            ).all_readings(),
            final(self).all_readings().last().value == old(self).next_value_spec(delta_centi),
            final(self).buffer() == old(self).buffer().push(final(self).all_readings().last()),
    {
        let timestamp = capture_timestamp();
        let change: i64 = if self.drift_std_centi == 0 {
            0
        } else {
            delta_centi
        };
        let value: i64 = if self.history.len() == 0 {
            self.base_value_centi + change
        } else {
            self.history[self.history.len() - 1].value_centi + change
        };
        let output = SensorOutput {
            id: copy_bytes(self.id.as_slice()),
            timestamp,
            value_centi: value,
            unit: self.unit,
            symbol: copy_bytes(self.unit_symbol.as_slice()),
        };
        let copy = output.duplicate();
        self.history.push(output);
        self.outputs.push(copy);
        proof {
            let m = self.history@.last().model();
            assert(self.all_readings() =~= old(self).all_readings().push(m));
            assert(self.buffer() =~= old(self).buffer().push(m));
            assert(self.all_readings().take(old(self).all_readings().len() as int)
                =~= old(self).all_readings());
            let h = self.all_readings().len() as int;
            let b = self.buffer().len() as int;
            assert(self.buffer() =~= self.all_readings().skip(h - b)) by {
                assert(old(self).buffer() == old(self).all_readings().skip(h - b));
                assert(forall|i: int|
                    0 <= i < b - 1 ==> old(self).buffer()[i] == #[trigger] self.buffer()[i]);
                assert(forall|i: int|
                    0 <= i < b ==> #[trigger] self.all_readings().skip(h - b)[i]
                        == self.all_readings()[h - b + i]);
            };
        }
    }

    /// The console line of the most recent unflushed reading.
    pub fn read_out(&self) -> (line: Vec<u8>)
        requires
            self.wf(),
            self.outputs@.len() > 0,
        ensures
            line@ == console_line(self.buffer().last()),
    {
        let r = &self.outputs[self.outputs.len() - 1];
        proof {
            let h = self.all_readings().len() as int;
            let b = self.buffer().len() as int;
            assert(self.buffer().last() == self.all_readings()[h - 1]);
            assert(self.reading_matches(self.all_readings()[h - 1]));
        }
        console_line_bytes(r)
    }

    /// The whole history as one tabular file.
    pub fn write_all_to_csv(&self) -> (r: Vec<u8>)
        requires
            self.wf(),
        ensures
            r@ == csv_file(self.all_readings()),
    {
        proof {
            assert forall|i: int|
                0 <= i < self.history@.len() implies (#[trigger] self.history@[i]).timestamp.wf()
                by {
                assert(self.all_readings()[i] == self.history@[i].model());
                assert(self.reading_matches(self.all_readings()[i]));
            }
        }
        csv_file_bytes(&self.history)
    }

    /// The whole history as one structured dump.
    pub fn write_all_to_json(&self) -> (r: Vec<u8>)
        requires
            self.wf(),
        ensures
            r@ == json_file(self.all_readings()),
    {
        proof {
            assert forall|i: int|
                0 <= i < self.history@.len() implies (#[trigger] self.history@[i]).timestamp.wf()
                by {
                assert(self.all_readings()[i] == self.history@[i].model());
                assert(self.reading_matches(self.all_readings()[i]));
            }
        }
        json_file_bytes(&self.history)
    }

    /// The bytes the final dump holds, in the session's configured format.
    pub open spec fn dump_bytes_spec(self) -> Seq<u8> {
        match self.file_format {
            FileFormat::Csv => csv_file(self.all_readings()),
            FileFormat::Json => json_file(self.all_readings()),
        }
    }

    /// Writes the whole history to the directory's final dump slot, in the
    /// configured format, replacing any earlier dump.
    pub fn write_all_to_file(&self, dir: &mut OutputDir)
        requires
            self.wf(),
        ensures
            final(dir).contents() == old(dir).contents(),
            final(dir).backup_view() == old(dir).backup_view(),
            final(dir).dump_view() == Some(self.dump_bytes_spec()),
    {
        let bytes = match self.file_format {
            FileFormat::Csv => self.write_all_to_csv(),
            FileFormat::Json => self.write_all_to_json(),
        };
        dir.dump = Some(bytes);
    }
}


impl EnvironmentalSensor {
    /// A fresh session with the given identity and parameters: empty
    /// buffer and history, first partition, no batches yet.
    pub fn new(
        category: SensorType,
        id: Vec<u8>,
        unit: Unit,
        base_value_centi: i64,
        drift_std_centi: u64,
        file_path: Option<String>,
        file_format: FileFormat,
    ) -> (s: EnvironmentalSensor)
        requires
            field_safe(id@),
            id@.len() >= 1,
        ensures
            s.wf(),
            s.fresh(),
            s.category == category,
            s.id@ == id@,
            s.unit == unit,
            s.base_value_centi == base_value_centi,
            s.drift_std_centi == drift_std_centi,
            s.file_path == file_path,
            s.file_format == file_format,
    {
        let symbol = unit_symbol_bytes(&unit);
        proof {
            lemma_unit_symbol_wf(unit);
        }
        let s = EnvironmentalSensor {
            category,
            id,
            outputs: Vec::new(),
            history: Vec::new(),
            unit,
            unit_symbol: symbol,
            base_value_centi,
            drift_std_centi,
            file_path,
            file_format,
            current_file_partition: 0,
            batches_in_current_file: 0,
        };
        proof {
            assert(s.buffer() =~= Seq::<ReadingModel>::empty());
            assert(s.all_readings() =~= Seq::<ReadingModel>::empty());
            assert(s.buffer() =~= s.all_readings().skip(0));
        }
        s
    }
}

/// A digit or letter: text that needs no quoting anywhere.
pub open spec fn is_plain_id_byte(b: u8) -> bool {
    crate::digits::is_digit(b) || 0x41 <= b <= 0x5A || 0x61 <= b <= 0x7A
}

/// A session id: the three-letter kind prefix followed by a random
/// three-character code.
fn build_id(p0: u8, p1: u8, p2: u8) -> (id: Vec<u8>)
    requires
        is_plain_id_byte(p0),
        is_plain_id_byte(p1),
        is_plain_id_byte(p2),
    ensures
        field_safe(id@),
        id@.len() == 6,
        id@[0] == p0,
        id@[1] == p1,
        id@[2] == p2,
        forall|i: int| 3 <= i < 6 ==> is_plain_id_byte(#[trigger] id@[i]),
{
    let mut id: Vec<u8> = Vec::new();
    id.push(p0);
    id.push(p1);
    id.push(p2);
    let code = create_id();
    crate::codec::push_bytes(&mut id, code.as_slice());
    proof {
        crate::utils::lemma_id_table_plain();
        assert forall|i: int| 0 <= i < id@.len() implies {
            let b = #[trigger] id@[i];
            b >= 0x20 && b != crate::codec::COMMA && b != crate::codec::QUOTE && b
                != crate::codec::BACKSLASH
        } by {
            if i >= 3 {
                let b = code@[i - 3];
                assert(id@[i] == b);
                assert(crate::utils::id_table().contains(b));
                let j = choose|j: int|
                    0 <= j < crate::utils::id_table().len() && crate::utils::id_table()[j] == b;
                assert(is_plain_id_byte(b));
            }
        }
        assert(field_safe(id@));
        assert forall|i: int| 3 <= i < 6 implies is_plain_id_byte(#[trigger] id@[i]) by {
            let b = code@[i - 3];
            assert(id@[i] == b);
            assert(crate::utils::id_table().contains(b));
            let j = choose|j: int|
                0 <= j < crate::utils::id_table().len() && crate::utils::id_table()[j] == b;
        }
    }
    id
}


/// Builds a temperature session: id prefix `TMP`, a random base value
/// between 10.00 and 30.00 degrees, drift standard deviation 0.10.
pub fn build_temp_sensor(args: Args) -> (s: EnvironmentalSensor)
    requires
        args.sensor_type is Temperature,
    ensures
        s.wf(),
        s.fresh(),
        s.id@.len() == 6,
        s.id@[0] == 0x54u8 && s.id@[1] == 0x4Du8 && s.id@[2] == 0x50u8,
        forall|i: int| 3 <= i < 6 ==> is_plain_id_byte(#[trigger] s.id@[i]),
        s.category == SensorType::Temperature,
        args.sensor_type matches Sensor::Temperature { unit } ==> s.unit == Unit::TemperatureUnit(
            unit,
        ),
        1000 <= s.base_value_centi < 3000,
        s.drift_std_centi == 10,
        s.file_path == args.output_args.to_file,
        s.file_format == args.output_args.format,
{
    let unit = match args.sensor_type {
        Sensor::Temperature { unit } => Unit::TemperatureUnit(unit),
        _ => {
            proof {
                assert(false);
            }
            Unit::TemperatureUnit(TemperatureUnit::Celsius)
        },
    };
    let id = build_id(0x54, 0x4D, 0x50);
    let base = random_range_u64(1000, 3000) as i64;
    EnvironmentalSensor::new(
        SensorType::Temperature,
        id,
        unit,
        base,
        10,
        args.output_args.to_file,
        args.output_args.format,
    )
}

/// Builds a pressure session: id prefix `PRS`, a random base value
/// between 0.90 and 1.10, drift standard deviation 0.10.
pub fn build_pressure_sensor(args: Args) -> (s: EnvironmentalSensor)
    requires
        args.sensor_type is Pressure,
    ensures
        s.wf(),
        s.fresh(),
        s.id@.len() == 6,
        s.id@[0] == 0x50u8 && s.id@[1] == 0x52u8 && s.id@[2] == 0x53u8,
        forall|i: int| 3 <= i < 6 ==> is_plain_id_byte(#[trigger] s.id@[i]),
        s.category == SensorType::Pressure,
        args.sensor_type matches Sensor::Pressure { unit } ==> s.unit == Unit::PressureUnit(unit),
        90 <= s.base_value_centi < 110,
        s.drift_std_centi == 10,
        s.file_path == args.output_args.to_file,
        s.file_format == args.output_args.format,
{
    let unit = match args.sensor_type {
        Sensor::Pressure { unit } => Unit::PressureUnit(unit),
        _ => {
            proof {
                assert(false);
            }
            Unit::PressureUnit(PressureUnit::Pascal)
        },
    };
    let id = build_id(0x50, 0x52, 0x53);
    let base = random_range_u64(90, 110) as i64;
    EnvironmentalSensor::new(
        SensorType::Pressure,
        id,
        unit,
        base,
        10,
        args.output_args.to_file,
        args.output_args.format,
    )
}

/// Builds a humidity session: id prefix `HMD`, a random base value
/// between 40.00 and 60.00, drift standard deviation 0.30.
pub fn build_humidity_sensor(args: Args) -> (s: EnvironmentalSensor)
    requires
        args.sensor_type is Humidity,
    ensures
        s.wf(),
        s.fresh(),
        s.id@.len() == 6,
        s.id@[0] == 0x48u8 && s.id@[1] == 0x4Du8 && s.id@[2] == 0x44u8,
        forall|i: int| 3 <= i < 6 ==> is_plain_id_byte(#[trigger] s.id@[i]),
        s.category == SensorType::Humidity,
        args.sensor_type matches Sensor::Humidity { unit } ==> s.unit == Unit::HumidityUnit(unit),
        4000 <= s.base_value_centi < 6000,
        s.drift_std_centi == 30,
        s.file_path == args.output_args.to_file,
        s.file_format == args.output_args.format,
{
    let unit = match args.sensor_type {
        Sensor::Humidity { unit } => Unit::HumidityUnit(unit),
        _ => {
            proof {
                assert(false);
            }
            Unit::HumidityUnit(HumidityUnit::Relative)
        },
    };
    let id = build_id(0x48, 0x4D, 0x44);
    let base = random_range_u64(4000, 6000) as i64;
    EnvironmentalSensor::new(
        SensorType::Humidity,
        id,
        unit,
        base,
        30,
        args.output_args.to_file,
        args.output_args.format,
    )
}


/// The bytes of the active partition file, empty when the file does not
/// exist yet.
pub open spec fn active_file(s: EnvironmentalSensor, dir: OutputDir) -> Seq<u8> {
    if s.current_file_partition < dir.contents().len() {
        dir.contents()[s.current_file_partition as int]
    } else {
        Seq::empty()
    }
}

/// The backup a flush leaves behind when it fails: a copy of the active
/// partition file, or none when that file was absent or empty.
pub open spec fn flush_backup(s: EnvironmentalSensor, dir: OutputDir) -> Option<Seq<u8>> {
    if active_file(s, dir).len() > 0 {
        Some(active_file(s, dir))
    } else {
        None
    }
}

/// What the active partition file holds after a successful flush: its old
/// bytes, the column-name line if it was empty, and the buffered rows.
pub open spec fn flush_appended(s: EnvironmentalSensor, dir: OutputDir) -> Seq<u8> {
    let f = active_file(s, dir);
    f + (if f.len() == 0 {
        header_bytes()
    } else {
        Seq::<u8>::empty()
    }) + csv_rows(s.buffer())
}

/// The directory's partition files after a successful flush.
pub open spec fn flush_contents(s: EnvironmentalSensor, dir: OutputDir) -> Seq<Seq<u8>> {
    if s.current_file_partition < dir.contents().len() {
        dir.contents().update(s.current_file_partition as int, flush_appended(s, dir))
    } else {
        dir.contents().push(flush_appended(s, dir))
    }
}

impl EnvironmentalSensor {
    /// Every buffered reading carries a calendar-valid timestamp.
    proof fn lemma_buffer_timestamps(self)
        requires
            self.wf(),
        ensures
            forall|i: int|
                0 <= i < self.outputs@.len() ==> (#[trigger] self.outputs@[i]).timestamp.wf(),
    {
        let h = self.all_readings().len() as int;
        let b = self.buffer().len() as int;
        assert forall|i: int|
            0 <= i < self.outputs@.len() implies (#[trigger] self.outputs@[i]).timestamp.wf() by {
            assert(self.buffer()[i] == self.outputs@[i].model());
            assert(self.buffer()[i] == self.all_readings().skip(h - b)[i]);
            assert(self.all_readings().skip(h - b)[i] == self.all_readings()[h - b + i]);
            assert(self.reading_matches(self.all_readings()[h - b + i]));
        }
    }

    /// The bytes one flush appends to the active partition file: the
    /// column-name line if the file is still empty, then the buffered
    /// readings as rows.
    pub fn batch_bytes(&self, file_empty: bool) -> (r: Vec<u8>)
        requires
            self.wf(),
        ensures
            r@ == (if file_empty {
                header_bytes()
            } else {
                Seq::<u8>::empty()
            }) + csv_rows(self.buffer()),
    {
        proof {
            self.lemma_buffer_timestamps();
        }
        let ghost prefix: Seq<u8> = if file_empty {
            header_bytes()
        } else {
            Seq::<u8>::empty()
        };
        let mut out: Vec<u8> = Vec::new();
        if file_empty {
            push_header(&mut out);
        }
        assert(out@ =~= prefix + csv_rows(self.buffer().take(0)));
        let mut i: usize = 0;
        while i < self.outputs.len()
            invariant
                i <= self.outputs@.len(),
                self.wf(),
                forall|k: int|
                    0 <= k < self.outputs@.len() ==> (#[trigger] self.outputs@[k]).timestamp.wf(),
                out@ == prefix + csv_rows(self.buffer().take(i as int)),
            decreases self.outputs@.len() - i,
        {
            push_row(&mut out, &self.outputs[i]);
            proof {
                lemma_csv_rows_snoc(self.buffer().take(i as int), self.outputs@[i as int].model());
                assert(self.buffer().take(i + 1) =~= self.buffer().take(i as int).push(
                    self.outputs@[i as int].model(),
                ));
                assert(out@ =~= prefix + csv_rows(self.buffer().take(i + 1)));
            }
            i = i + 1;
        }
        assert(self.buffer().take(self.outputs@.len() as int) =~= self.buffer());
        out
    }

    /// The bookkeeping after a flush is confirmed durable: count the
    /// batch, rotate when the partition is full, clear the buffer.
    pub fn commit_flush(&mut self)
        requires
            old(self).wf(),
            old(self).batches_in_current_file + 1 == MAX_BATCHES_PER_FILE ==> old(
                self,
            ).current_file_partition < usize::MAX,
        ensures
            final(self).wf(),
            final(self).same_config(*old(self)),
            final(self).all_readings() == old(self).all_readings(),
            final(self).buffer() == Seq::<ReadingModel>::empty(),
            final(self).file_path == old(self).file_path,
            (
                final(self).current_file_partition as int,
                final(self).batches_in_current_file as int,
            ) == commit_step(
                old(self).current_file_partition as int,
                old(self).batches_in_current_file as int,
            ),
    {
        self.batches_in_current_file = self.batches_in_current_file + 1;
        if self.batches_in_current_file == MAX_BATCHES_PER_FILE {
            self.current_file_partition = self.current_file_partition + 1;
            self.batches_in_current_file = 0;
        }
        self.outputs.clear();
        proof {
            assert(self.buffer() =~= Seq::<ReadingModel>::empty());
            assert(self.buffer() =~= self.all_readings().skip(
                self.all_readings().len() as int,
            ));
        }
    }

    /// One flush of the buffered readings to the active partition file,
    /// with the append-with-backup protocol: copy the target aside, append
    /// the batch, and on failure restore the target from the copy and
    /// leave the buffer untouched so that a retry resends the same
    /// content.
    pub fn flush_outputs(&mut self, dir: &mut OutputDir, fail_append: bool) -> (r: Result<
        (),
        PersistenceError,
    >)
        requires
            old(self).wf(),
            old(self).consistent(*old(dir)),
        ensures
            final(self).wf(),
            final(self).same_config(*old(self)),
            final(self).all_readings() == old(self).all_readings(),
            final(self).consistent(*final(dir)),
            final(dir).dump_view() == old(dir).dump_view(),
            fail_append ==> {
                &&& r == Err::<(), PersistenceError>(
                    PersistenceError { partition_index: old(self).current_file_partition },
                )
                &&& final(self).buffer() == old(self).buffer()
                &&& final(self).current_file_partition == old(self).current_file_partition
                &&& final(self).batches_in_current_file == old(self).batches_in_current_file
                &&& final(dir).contents() == old(dir).contents()
                &&& final(dir).backup_view() == flush_backup(*old(self), *old(dir))
            },
            !fail_append ==> {
                &&& r is Ok
                &&& final(self).buffer() == Seq::<ReadingModel>::empty()
                &&& (
                    final(self).current_file_partition as int,
                    final(self).batches_in_current_file as int,
                ) == commit_step(
                    old(self).current_file_partition as int,
                    old(self).batches_in_current_file as int,
                )
                &&& final(dir).contents() == flush_contents(*old(self), *old(dir))
                &&& final(dir).backup_view() is None
            },
    {
        let idx = self.current_file_partition;
        if idx < dir.files.len() {
            if dir.files[idx].len() > 0 {
                let b = copy_bytes(dir.files[idx].as_slice());
                dir.backup = Some(b);
            } else {
                dir.backup = None;
            }
        } else {
            dir.backup = None;
        }
        assert(dir.contents() =~= old(dir).contents());
        if fail_append {
            return Err(PersistenceError { partition_index: idx });
        }
        let file_empty = if idx < dir.files.len() {
            dir.files[idx].len() == 0
        } else {
            true
        };
        let batch = self.batch_bytes(file_empty);
        if idx < dir.files.len() {
            let mut f = copy_bytes(dir.files[idx].as_slice());
            crate::codec::push_bytes(&mut f, batch.as_slice());
            let ghost fview = f@;
            dir.files[idx] = f;
            proof {
                assert(fview == flush_appended(*old(self), *old(dir)));
                assert(dir.contents() =~= old(dir).contents().update(idx as int, fview));
            }
        } else {
            let ghost bview = batch@;
            dir.files.push(batch);
            proof {
                assert(Seq::<u8>::empty() + header_bytes() + csv_rows(old(self).buffer())
                    == bview);
                assert(bview == flush_appended(*old(self), *old(dir)));
                assert(dir.contents() =~= old(dir).contents().push(bview));
            }
        }
        dir.backup = None;
        proof {
            if self.batches_in_current_file != 0 {
                assert(old(dir).contents().len() == self.current_file_partition as int + 1);
                assert(self.current_file_partition < usize::MAX);
            }
        }
        self.commit_flush();
        Ok(())
    }

    /// One flush call with retries: up to five attempts, each resending
    /// the same buffered readings, before the failure is surfaced as
    /// fatal.  The first `fail_attempts` attempts fail.
    pub fn log_data(&mut self, dir: &mut OutputDir, fail_attempts: u8) -> (r: Result<
        (),
        PersistenceError,
    >)
        requires
            old(self).wf(),
            old(self).consistent(*old(dir)),
        ensures
            final(self).wf(),
            final(self).same_config(*old(self)),
            final(self).all_readings() == old(self).all_readings(),
            final(self).consistent(*final(dir)),
            final(dir).dump_view() == old(dir).dump_view(),
            fail_attempts >= 5 ==> {
                &&& r == Err::<(), PersistenceError>(
                    PersistenceError { partition_index: old(self).current_file_partition },
                )
                &&& final(self).buffer() == old(self).buffer()
                &&& final(self).current_file_partition == old(self).current_file_partition
                &&& final(self).batches_in_current_file == old(self).batches_in_current_file
                &&& final(dir).contents() == old(dir).contents()
                &&& final(dir).backup_view() == flush_backup(*old(self), *old(dir))
            },
            fail_attempts < 5 ==> {
                &&& r is Ok
                &&& final(self).buffer() == Seq::<ReadingModel>::empty()
                &&& (
                    final(self).current_file_partition as int,
                    final(self).batches_in_current_file as int,
                ) == commit_step(
                    old(self).current_file_partition as int,
                    old(self).batches_in_current_file as int,
                )
                &&& final(dir).contents() == flush_contents(*old(self), *old(dir))
                &&& final(dir).backup_view() is None
            },
    {
        let mut attempt: u8 = 0;
        while attempt < 4
            invariant
                attempt <= 4,
                attempt <= fail_attempts,
                self.wf(),
                self.consistent(*dir),
                self.same_config(*old(self)),
                self.all_readings() == old(self).all_readings(),
                self.buffer() == old(self).buffer(),
                self.current_file_partition == old(self).current_file_partition,
                self.batches_in_current_file == old(self).batches_in_current_file,
                dir.contents() == old(dir).contents(),
                dir.dump_view() == old(dir).dump_view(),
                attempt == 0 ==> dir.backup_view() == old(dir).backup_view(),
                attempt > 0 ==> dir.backup_view() == flush_backup(*old(self), *old(dir)),
            decreases 4 - attempt,
        {
            let fail = attempt < fail_attempts;
            match self.flush_outputs(dir, fail) {
                Ok(_) => {
                    return Ok(());
                },
                Err(_) => {
                    attempt = attempt + 1;
                },
            }
        }
        self.flush_outputs(dir, 4 < fail_attempts)
    }
}


/// The fault injected for one flush call: how many of its attempts fail.
/// Beyond the end of the plan no attempt fails.
pub open spec fn fault_at(faults: Seq<u8>, j: int) -> u8 {
    if 0 <= j < faults.len() {
        faults[j]
    } else {
        0
    }
}

/// The first flush call among the first `upto` whose five attempts all
/// fail, or -1 when every one of them gets through.
pub open spec fn first_fatal(faults: Seq<u8>, upto: int) -> int
    decreases upto,
{
    if upto <= 0 {
        -1
    } else {
        let p = first_fatal(faults, upto - 1);
        if p >= 0 {
            p
        } else if fault_at(faults, upto - 1) >= 5 {
            upto - 1
        } else {
            -1
        }
    }
}

/// When no flush call is fatal, none is found.
pub proof fn lemma_first_fatal_none(faults: Seq<u8>, upto: int)
    requires
        forall|j: int| 0 <= j < upto ==> fault_at(faults, j) < 5,
    ensures
        first_fatal(faults, upto) < 0,
    decreases upto,
{
    if upto > 0 {
        lemma_first_fatal_none(faults, upto - 1);
    }
}

/// The first fatal flush call is exactly the first one whose fault count
/// reaches five.
pub proof fn lemma_first_fatal_exact(faults: Seq<u8>, upto: int, k: int)
    requires
        0 <= k < upto,
        forall|j: int| 0 <= j < k ==> fault_at(faults, j) < 5,
        fault_at(faults, k) >= 5,
    ensures
        first_fatal(faults, upto) == k,
    decreases upto,
{
    if k < upto - 1 {
        lemma_first_fatal_exact(faults, upto - 1, k);
    } else {
        lemma_first_fatal_none(faults, upto - 1);
    }
}

/// After `f` successful flushes of a fresh session the partition index is
/// `f` divided by the rotation threshold and the per-partition counter is
/// the remainder: every tenth flush moves to a new partition and resets
/// the counter.
pub proof fn lemma_rotation_counts(f: nat)
    ensures
        iter_commit(f).0 == f as int / (MAX_BATCHES_PER_FILE as int),
        iter_commit(f).1 == f as int % (MAX_BATCHES_PER_FILE as int),
    decreases f,
{
    if f > 0 {
        lemma_rotation_counts((f - 1) as nat);
        let g = f as int;
        assert((g - 1) % 10 == 9 ==> g % 10 == 0 && g / 10 == (g - 1) / 10 + 1)
            by (nonlinear_arith)
            requires
                g >= 1,
        ;
        assert((g - 1) % 10 < 9 ==> g % 10 == (g - 1) % 10 + 1 && g / 10 == (g - 1) / 10)
            by (nonlinear_arith)
            requires
                g >= 1,
        ;
    }
}

/// The walk strays from the base value by at most the drift bound per
/// step.
pub proof fn lemma_walk_bound(base: int, std: u64, deltas: Seq<i64>, j: int)
    requires
        0 <= j < deltas.len(),
        forall|i: int| 0 <= i < deltas.len() ==> -1000000 <= #[trigger] deltas[i] <= 1000000,
    ensures
        base - (j + 1) * 1000000 <= walk_value(base, std, deltas, j) <= base + (j + 1) * 1000000,
    decreases j,
{
    if j > 0 {
        lemma_walk_bound(base, std, deltas, j - 1);
    }
}

/// Rows already on disk stay; appending to the last partition file
/// appends its rows.
proof fn lemma_stored_rows_grow_last(files: Seq<Seq<u8>>, x: Seq<u8>)
    requires
        files.len() > 0,
        files.last().len() >= header_bytes().len(),
    ensures
        stored_rows(files.update(files.len() - 1, files.last() + x)) == stored_rows(files) + x,
{
    let g = files.update(files.len() - 1, files.last() + x);
    assert(g.drop_last() =~= files.drop_last());
    assert(g.last() == files.last() + x);
    assert(body_of(files.last() + x) =~= body_of(files.last()) + x);
    assert(stored_rows(files.drop_last()) + (body_of(files.last()) + x) =~= (stored_rows(
        files.drop_last(),
    ) + body_of(files.last())) + x);
}

/// A new partition file adds its rows after all earlier ones.
proof fn lemma_stored_rows_push(files: Seq<Seq<u8>>, f: Seq<u8>)
    ensures
        stored_rows(files.push(f)) == stored_rows(files) + body_of(f),
{
    assert(files.push(f).drop_last() =~= files);
    assert(files.push(f).last() == f);
}


/// A successful flush keeps the directory durable: the rows on disk are
/// again exactly the rows of the (now larger) flushed prefix.
#[verifier::rlimit(80)]
proof fn lemma_flush_preserves_durable(
    s0: EnvironmentalSensor,
    dir0: OutputDir,
    s1: EnvironmentalSensor,
    dir1: OutputDir,
)
    requires
        s0.wf(),
        s0.consistent(dir0),
        s0.durable(dir0),
        dir1.contents() == flush_contents(s0, dir0),
        s1.all_readings() == s0.all_readings(),
        s1.buffer() == Seq::<ReadingModel>::empty(),
    ensures
        s1.durable(dir1),
{
    let files = dir0.contents();
    let idx = s0.current_file_partition as int;
    let app = flush_appended(s0, dir0);
    let rows = csv_rows(s0.buffer());
    assert(s1.flushed() =~= s1.all_readings());
    assert(s0.all_readings() =~= s0.flushed() + s0.buffer()) by {
        assert(s0.buffer() == s0.all_readings().skip(
            s0.all_readings().len() - s0.buffer().len(),
        ));
    };
    lemma_csv_rows_concat(s0.flushed(), s0.buffer());
    if idx < files.len() {
        assert(files.len() == idx + 1);
        assert(active_file(s0, dir0) == files.last());
        assert(is_headered(files.last()));
        assert(active_file(s0, dir0).len() > 0);
        assert(app =~= files.last() + rows);
        lemma_stored_rows_grow_last(files, rows);
        assert(dir1.contents() == files.update(files.len() - 1, files.last() + rows));
        assert forall|k: int| 0 <= k < dir1.contents().len() implies is_headered(
            #[trigger] dir1.contents()[k],
        ) by {
            if k == files.len() - 1 {
                assert(dir1.contents()[k] == files.last() + rows);
                assert((files.last() + rows).take(header_bytes().len() as int)
                    =~= files.last().take(header_bytes().len() as int));
            } else {
                assert(dir1.contents()[k] == files[k]);
            }
        }
    } else {
        assert(active_file(s0, dir0) =~= Seq::<u8>::empty());
        assert(app =~= header_bytes() + rows);
        lemma_stored_rows_push(files, app);
        assert(body_of(app) =~= rows);
        assert forall|k: int| 0 <= k < dir1.contents().len() implies is_headered(
            #[trigger] dir1.contents()[k],
        ) by {
            if k == files.len() {
                assert(dir1.contents()[k] == app);
                assert(app.take(header_bytes().len() as int) =~= header_bytes());
            } else {
                assert(dir1.contents()[k] == files[k]);
            }
        }
    }
}

impl EnvironmentalSensor {
    /// The timed sampling loop of one fresh session.  Each tick generates
    /// one reading from the supplied drift; every time the buffer reaches
    /// the batch size it is flushed, with retries, to the active partition
    /// file; a flush whose retries are exhausted aborts the run.  On
    /// completion, if an output directory is configured, the whole history
    /// is written as the final dump.  The runner around the library
    /// performs the interval waits and mirrors the directory to disk.
    /// The bounds on the duration, the base value and the per-tick drift
    /// are machine limits alone: they keep the 64-bit fixed-point
    /// arithmetic of the walk exact over the whole run.
    #[verifier::rlimit(100)]
    pub fn run_sensor(
        &mut self,
        interval: u64,
        duration: u64,
        deltas: &Vec<i64>,
        dir: &mut OutputDir,
        faults: &Vec<u8>,
    ) -> (r: Result<(), PersistenceError>)
        requires
            old(self).wf(),
            old(self).fresh(),
            old(dir).contents() == Seq::<Seq<u8>>::empty(),
            old(dir).dump_view() is None,
            interval >= 1,
            duration <= 0xFFFF_FFFE,
            deltas@.len() >= duration / interval,
            forall|i: int| 0 <= i < deltas@.len() ==> -1000000 <= #[trigger] deltas@[i] <= 1000000,
            -1000000000000 <= old(self).base_value_centi <= 1000000000000,
        ensures
            final(self).wf(),
            final(self).same_config(*old(self)),
            final(self).consistent(*final(dir)),
            final(self).durable(*final(dir)),
            ({
                let n = (duration / interval) as int;
                let base = old(self).base_value_centi as int;
                let std = old(self).drift_std_centi;
                let nf = n / (APPEND_BATCH_SIZE as int);
                let ff = first_fatal(faults@, nf);
                &&& (r is Ok <==> ff < 0)
                &&& forall|j: int|
                    0 <= j < final(self).all_readings().len()
                        ==> (#[trigger] final(self).all_readings()[j]).value as int
                        == walk_value(base, std, deltas@, j)
                &&& (r is Ok ==> {
                    &&& final(self).all_readings().len() == n
                    &&& final(self).buffer().len() == n % (APPEND_BATCH_SIZE as int)
                    &&& (
                        final(self).current_file_partition as int,
                        final(self).batches_in_current_file as int,
                    ) == iter_commit(nf as nat)
                    &&& final(dir).dump_view() == (if old(self).file_path is Some {
                        Some(final(self).dump_bytes_spec())
                    } else {
                        None::<Seq<u8>>
                    })
                })
                &&& (r is Err ==> {
                    &&& r == Err::<(), PersistenceError>(
                        PersistenceError { partition_index: (iter_commit(ff as nat).0) as usize },
                    )
                    &&& final(self).all_readings().len() == (ff + 1) * (APPEND_BATCH_SIZE as int)
                    &&& final(self).buffer().len() == APPEND_BATCH_SIZE as int
                    &&& (
                        final(self).current_file_partition as int,
                        final(self).batches_in_current_file as int,
                    ) == iter_commit(ff as nat)
                    &&& final(dir).dump_view() is None
                })
            }),
    {
        let n: u64 = duration / interval;
        proof {
            assert(n as int <= duration as int) by (nonlinear_arith)
                requires
                    interval >= 1,
                    n == duration as int / interval as int,
                    duration >= 0,
            ;
        }
        let ghost base: int = self.base_value_centi as int;
        let ghost std: u64 = self.drift_std_centi;
        let ghost nf: int = n as int / (APPEND_BATCH_SIZE as int);
        proof {
            assert(self.flushed() =~= Seq::<ReadingModel>::empty());
            assert(stored_rows(old(dir).contents()) =~= csv_rows(self.flushed()));
        }
        let mut i: u64 = 0;
        let mut flushes: usize = 0;
        while i < n
            invariant
                i <= n,
                n == duration / interval,
                n <= 0xFFFF_FFFE,
                duration <= 0xFFFF_FFFE,
                deltas@.len() >= n,
                forall|k: int|
                    0 <= k < deltas@.len() ==> -1000000 <= #[trigger] deltas@[k] <= 1000000,
                -1000000000000 <= base <= 1000000000000,
                base == old(self).base_value_centi as int,
                std == old(self).drift_std_centi,
                nf == n as int / (APPEND_BATCH_SIZE as int),
                self.wf(),
                self.same_config(*old(self)),
                self.consistent(*dir),
                self.durable(*dir),
                self.all_readings().len() == i,
                forall|j: int|
                    0 <= j < i ==> (#[trigger] self.all_readings()[j]).value as int == walk_value(
                        base,
                        std,
                        deltas@,
                        j,
                    ),
                250 * (flushes as int) + self.buffer().len() == i,
                self.buffer().len() < 250,
                (
                    self.current_file_partition as int,
                    self.batches_in_current_file as int,
                ) == iter_commit(flushes as nat),
                forall|j: int| 0 <= j < flushes ==> fault_at(faults@, j) < 5,
                dir.dump_view() is None,
            decreases n - i,
        {
            let d: i64 = deltas[i as usize];
            proof {
                lemma_walk_bound(base, std, deltas@, i as int);
                if i > 0 {
                    lemma_walk_bound(base, std, deltas@, i as int - 1);
                    assert(self.all_readings().last().value as int == walk_value(
                        base,
                        std,
                        deltas@,
                        i as int - 1,
                    ));
                }
                assert((i as int + 1) * 1000000 <= 4294967296000000) by (nonlinear_arith)
                    requires
                        0 <= i as int + 1 <= 4294967296,
                ;
                assert(self.next_value_spec(d) == walk_value(base, std, deltas@, i as int));
            }
            let ghost sg = *self;
            self.generate_output(d);
            i = i + 1;
            proof {
                assert(self.flushed() =~= sg.flushed()) by {
                    assert(self.all_readings().len() - self.buffer().len()
                        == sg.all_readings().len() - sg.buffer().len());
                    assert(forall|k: int|
                        0 <= k < sg.all_readings().len() ==> #[trigger] self.all_readings()[k]
                            == sg.all_readings()[k]) by {
                        assert(forall|k: int|
                            0 <= k < sg.all_readings().len() ==> #[trigger] self.all_readings()
                                .take(sg.all_readings().len() as int)[k]
                                == self.all_readings()[k]);
                    };
                };
                assert(self.durable(*dir));
                assert forall|j: int|
                    0 <= j < i implies (#[trigger] self.all_readings()[j]).value as int
                    == walk_value(base, std, deltas@, j) by {
                    if j < i - 1 {
                        assert(self.all_readings()[j] == self.all_readings().take(i as int - 1)[j]);
                    }
                }
            }
            if self.outputs.len() == APPEND_BATCH_SIZE {
                let fa: u8 = if flushes < faults.len() {
                    faults[flushes]
                } else {
                    0
                };
                proof {
                    assert(fa == fault_at(faults@, flushes as int));
                }
                let ghost s0 = *self;
                let ghost dir0 = *dir;
                let res = self.log_data(dir, fa);
                match res {
                    Ok(_) => {
                        proof {
                            lemma_flush_preserves_durable(s0, dir0, *self, *dir);
                            assert(250 * (flushes as int) + 250 == i);
                            assert((250 * (flushes as int + 1)) / 250 == flushes as int + 1)
                                by (nonlinear_arith);
                        }
                        flushes = flushes + 1;
                    },
                    Err(e) => {
                        proof {
                            assert(fa >= 5);
                            assert(250 * (flushes as int) + 250 == i);
                            assert(flushes as int + 1 <= nf) by (nonlinear_arith)
                                requires
                                    250 * (flushes as int + 1) == i as int,
                                    i as int <= n as int,
                                    nf == n as int / 250,
                            ;
                            lemma_first_fatal_exact(faults@, nf, flushes as int);
                            lemma_rotation_counts(flushes as nat);
                            assert(self.all_readings().len() == (flushes as int + 1) * 250)
                                by (nonlinear_arith)
                                requires
                                    self.all_readings().len() == i as int,
                                    250 * (flushes as int) + 250 == i as int,
                            ;
                        }
                        return Err(e);
                    },
                }
            }
        }
        proof {
            assert(self.buffer().len() == n as int % 250 && flushes as int == nf)
                by (nonlinear_arith)
                requires
                    250 * (flushes as int) + self.buffer().len() == n as int,
                    0 <= self.buffer().len() < 250,
                    nf == n as int / 250,
            ;
            lemma_first_fatal_none(faults@, nf);
        }
        if self.file_path.is_some() {
            self.write_all_to_file(dir);
        }
        Ok(())
    }
}

/// The name of a partition file: the session id, `_output_`, the
/// partition index and the `.csv` ending.
pub open spec fn partition_filename_spec(id: Seq<u8>, k: nat) -> Seq<u8> {
    id + seq![0x5Fu8, 0x6Fu8, 0x75u8, 0x74u8, 0x70u8, 0x75u8, 0x74u8, 0x5Fu8] + dec_digits(k)
        + seq![0x2Eu8, 0x63u8, 0x73u8, 0x76u8]
}

impl EnvironmentalSensor {
    /// The file name the active partition is written under.
    pub fn partition_filename(&self) -> (r: Vec<u8>)
        ensures
            r@ == partition_filename_spec(self.id@, self.current_file_partition as nat),
    {
        let mut out: Vec<u8> = Vec::new();
        crate::codec::push_bytes(&mut out, self.id.as_slice());
        let tag: Vec<u8> = vec![0x5Fu8, 0x6Fu8, 0x75u8, 0x74u8, 0x70u8, 0x75u8, 0x74u8, 0x5Fu8];
        crate::codec::push_bytes(&mut out, tag.as_slice());
        let num = u64_to_dec(self.current_file_partition as u64);
        crate::codec::push_bytes(&mut out, num.as_slice());
        let ext: Vec<u8> = vec![0x2Eu8, 0x63u8, 0x73u8, 0x76u8];
        crate::codec::push_bytes(&mut out, ext.as_slice());
        assert(tag@ =~= seq![0x5Fu8, 0x6Fu8, 0x75u8, 0x74u8, 0x70u8, 0x75u8, 0x74u8, 0x5Fu8]);
        assert(ext@ =~= seq![0x2Eu8, 0x63u8, 0x73u8, 0x76u8]);
        assert(out@ =~= partition_filename_spec(self.id@, self.current_file_partition as nat));
        out
    }
}

} // verus!
