//! Sensors of the kernel's `hwmon` class: fans, temperatures, power, voltages,
//! currents, and the limits and alarms of temperatures.

use crate::list::{kept, lemma_kept_both, lemma_kept_next, lemma_kept_none, lemma_kept_source};
use crate::number::{
    decimal, law_decimal_reads_back, law_signed_numbers_read_back, lemma_decimal_is_a_word,
    parse_i64, parse_u64, parsed_i64, parsed_u64,
};
use crate::order::{
    arranged, law_arranged_is_sorted, law_arranging_follows_the_order, lemma_same_items,
    lemma_text_reflexive, lemma_texts_total, lemma_texts_transitive, sort, text_at_most, text_le,
    texts_le, Ranked,
};
use crate::snapshot::{Fan, FanView, TemperatureAlarm, TemperatureAlarmView};
use crate::text::{
    after_prefix, before_suffix, blank, characters, digits, ends, equals, is_digits, join_texts,
    law_trimming_takes_the_blanks, lemma_blanks_end, optional, optional_text, owned, referred_text,
    strip_prefix, strip_suffix, trim, trim_text, trimmed, views, whitespace,
};
use vstd::prelude::*;

verus! {

/// A file in the directory of a chip, and what it holds where it could be read.
pub struct SensorFile {
    pub name: String,
    pub content: Option<String>,
}

/// The view of `SensorFile`.
#[verifier::ext_equal]
pub struct SensorFileView {
    pub name: Seq<char>,
    pub content: Option<Seq<char>>,
}

impl View for SensorFile {
    type V = SensorFileView;

    open spec fn view(&self) -> SensorFileView {
        SensorFileView { name: self.name@, content: optional_text(self.content) }
    }
}

/// A chip: the name of its directory, what its file `name` holds, and its files,
/// where they could be read.
pub struct Chip {
    pub directory: String,
    pub name: Option<String>,
    pub files: Option<Vec<SensorFile>>,
}

/// The view of `Chip`.
#[verifier::ext_equal]
pub struct ChipView {
    pub directory: Seq<char>,
    pub name: Option<Seq<char>>,
    pub files: Option<Seq<SensorFileView>>,
}

impl View for Chip {
    type V = ChipView;

    open spec fn view(&self) -> ChipView {
        ChipView {
            directory: self.directory@,
            name: optional_text(self.name),
            files: match self.files {
                Some(files) => Some(views(files@)),
                None => None,
            },
        }
    }
}

/// What a sensor measures.
#[derive(Clone, Copy, Debug, PartialEq, Eq, Structural)]
pub enum Quantity {
    /// The speed of a fan, in revolutions per minute.
    Fan,
    /// A temperature, in thousandths of a degree.
    Temperature,
    /// A power, in millionths of a watt.
    Power,
    /// A voltage, in thousandths of a volt.
    Voltage,
    /// A current, in thousandths of an ampere.
    Current,
    /// A temperature that a sensor should stay within, in thousandths of a degree.
    Limit,
    /// The alarm state of a temperature sensor.
    Alarm,
}

/// The number between a prefix and a suffix in the name of a file.
pub open spec fn numbered(
    file_name: Seq<char>,
    prefix: Seq<char>,
    suffix: Seq<char>,
) -> Option<Seq<char>> {
    match after_prefix(file_name, prefix) {
        Some(rest) => match before_suffix(rest, suffix) {
            Some(number) => if digits(number) {
                Some(number)
            } else {
                None
            },
            None => None,
        },
        None => None,
    }
}

fn number_in<'a>(file_name: &'a [char], prefix: &str, suffix: &str) -> (r: Option<&'a [char]>)
    ensures
        optional(r) == numbered(file_name@, prefix@, suffix@),
{
    match strip_prefix(file_name, prefix) {
        Some(rest) => match strip_suffix(rest, suffix) {
            Some(number) => if is_digits(number) {
                Some(number)
            } else {
                None
            },
            None => None,
        },
        None => None,
    }
}

/// The number between a prefix and an underscore with a suffix in the name of a
/// file.
pub fn sensor_number_with_suffix(file_name: &str, prefix: &str, suffix: &str) -> (r: Option<
    String,
>)
    ensures
        optional_text(r) == numbered(file_name@, prefix@, "_"@ + suffix@),
{
    let chars: Vec<char> = characters(file_name);
    let end: String = join_texts("_", suffix);
    match number_in(chars.as_slice(), prefix, end.as_str()) {
        Some(number) => Some(owned(number)),
        None => None,
    }
}

proof fn lemma_input()
    ensures
        "_"@ + "input"@ == "_input"@,
        "_"@ + "alarm"@ == "_alarm"@,
{
    reveal_strlit("_");
    reveal_strlit("input");
    reveal_strlit("_input");
    reveal_strlit("alarm");
    reveal_strlit("_alarm");
    assert("_"@ + "input"@ =~= "_input"@);
    assert("_"@ + "alarm"@ =~= "_alarm"@);
}

/// The number of the sensor whose input a file holds.
pub fn input_sensor_number(file_name: &str, prefix: &str) -> (r: Option<String>)
    ensures
        optional_text(r) == numbered(file_name@, prefix@, "_input"@),
{
    proof {
        lemma_input();
    }
    sensor_number_with_suffix(file_name, prefix, "input")
}

/// The number of the temperature sensor whose input a file holds.
pub fn temperature_sensor_number(file_name: &str) -> (r: Option<String>)
    ensures
        optional_text(r) == numbered(file_name@, "temp"@, "_input"@),
{
    input_sensor_number(file_name, "temp")
}

/// A text behind another, where there is one.
pub open spec fn prefixed(prefix: Seq<char>, number: Option<Seq<char>>) -> Option<Seq<char>> {
    match number {
        Some(number) => Some(prefix + number),
        None => None,
    }
}

/// The name of the fan whose speed a file holds.
pub fn fan_sensor_name(file_name: &str) -> (r: Option<String>)
    ensures
        optional_text(r) == prefixed("fan"@, numbered(file_name@, "fan"@, "_input"@)),
{
    match input_sensor_number(file_name, "fan") {
        Some(number) => Some(join_texts("fan", number.as_str())),
        None => None,
    }
}

/// A number, and a word on what the file holds.
pub open spec fn with_word(number: Option<Seq<char>>, word: Seq<char>) -> Option<
    (Seq<char>, Seq<char>),
> {
    match number {
        Some(number) => Some((number, word)),
        None => None,
    }
}

/// The first of two that there is.
pub open spec fn or_else<A>(first: Option<A>, second: Option<A>) -> Option<A> {
    match first {
        Some(a) => Some(a),
        None => second,
    }
}

/// The number of the power sensor that a file is of, and whether it holds an
/// instant or an average.
pub open spec fn power_sensor_of(file_name: Seq<char>) -> Option<(Seq<char>, Seq<char>)> {
    or_else(
        with_word(numbered(file_name, "power"@, "_input"@), "input"@),
        with_word(numbered(file_name, "power"@, "_average"@), "average"@),
    )
}

/// The texts of an optional pair of strings.
pub open spec fn optional_texts(pair: Option<(String, String)>) -> Option<(Seq<char>, Seq<char>)> {
    match pair {
        Some((a, b)) => Some((a@, b@)),
        None => None,
    }
}

/// The number of the power sensor that a file is of, and whether it holds an
/// instant or an average.
pub fn power_sensor(file_name: &str) -> (r: Option<(String, String)>)
    ensures
        optional_texts(r) == power_sensor_of(file_name@),
{
    let chars: Vec<char> = characters(file_name);
    if let Some(number) = number_in(chars.as_slice(), "power", "_input") {
        return Some((owned(number), "input".to_owned()));
    }
    if let Some(number) = number_in(chars.as_slice(), "power", "_average") {
        return Some((owned(number), "average".to_owned()));
    }
    None
}

/// The number of the temperature sensor that a file limits, and the limit's name.
pub open spec fn temperature_limit_of(file_name: Seq<char>) -> Option<(Seq<char>, Seq<char>)> {
    or_else(
        with_word(numbered(file_name, "temp"@, "_min"@), "min"@),
        or_else(
            with_word(numbered(file_name, "temp"@, "_max"@), "max"@),
            or_else(
                with_word(numbered(file_name, "temp"@, "_crit"@), "crit"@),
                with_word(numbered(file_name, "temp"@, "_emergency"@), "emergency"@),
            ),
        ),
    )
}

/// The number of the temperature sensor that a file limits, and the limit's name.
pub fn temperature_limit(file_name: &str) -> (r: Option<(String, String)>)
    ensures
        optional_texts(r) == temperature_limit_of(file_name@),
{
    let chars: Vec<char> = characters(file_name);
    if let Some(number) = number_in(chars.as_slice(), "temp", "_min") {
        return Some((owned(number), "min".to_owned()));
    }
    if let Some(number) = number_in(chars.as_slice(), "temp", "_max") {
        return Some((owned(number), "max".to_owned()));
    }
    if let Some(number) = number_in(chars.as_slice(), "temp", "_crit") {
        return Some((owned(number), "crit".to_owned()));
    }
    if let Some(number) = number_in(chars.as_slice(), "temp", "_emergency") {
        return Some((owned(number), "emergency".to_owned()));
    }
    None
}

/// A sensor without a word on what the file holds.
pub open spec fn plain_sensor(prefix: Seq<char>, number: Option<Seq<char>>) -> Option<
    (Seq<char>, Seq<char>),
> {
    with_word(prefixed(prefix, number), Seq::empty())
}

/// A sensor with a word on what the file holds.
pub open spec fn worded_sensor(
    prefix: Seq<char>,
    found: Option<(Seq<char>, Seq<char>)>,
) -> Option<(Seq<char>, Seq<char>)> {
    match found {
        Some((number, word)) => Some((prefix + number, word)),
        None => None,
    }
}

/// The sensor that a file is of: its name, and a word on what the file holds
/// where a sensor has several files.
pub open spec fn sensor_of(quantity: Quantity, file_name: Seq<char>) -> Option<
    (Seq<char>, Seq<char>),
> {
    match quantity {
        Quantity::Fan => plain_sensor("fan"@, numbered(file_name, "fan"@, "_input"@)),
        Quantity::Temperature => plain_sensor("temp"@, numbered(file_name, "temp"@, "_input"@)),
        Quantity::Power => worded_sensor("power"@, power_sensor_of(file_name)),
        Quantity::Voltage => plain_sensor("in"@, numbered(file_name, "in"@, "_input"@)),
        Quantity::Current => plain_sensor("curr"@, numbered(file_name, "curr"@, "_input"@)),
        Quantity::Limit => worded_sensor("temp"@, temperature_limit_of(file_name)),
        Quantity::Alarm => plain_sensor("temp"@, numbered(file_name, "temp"@, "_alarm"@)),
    }
}

fn plain(prefix: &str, number: Option<String>) -> (r: Option<(String, String)>)
    ensures
        optional_texts(r) == plain_sensor(prefix@, optional_text(number)),
{
    match number {
        Some(number) => Some((join_texts(prefix, number.as_str()), String::new())),
        None => None,
    }
}

fn worded(prefix: &str, found: Option<(String, String)>) -> (r: Option<(String, String)>)
    ensures
        optional_texts(r) == worded_sensor(prefix@, optional_texts(found)),
{
    match found {
        Some((number, word)) => Some((join_texts(prefix, number.as_str()), word)),
        None => None,
    }
}

fn sensor_in(quantity: Quantity, file_name: &str) -> (r: Option<(String, String)>)
    ensures
        optional_texts(r) == sensor_of(quantity, file_name@),
{
    proof {
        lemma_input();
    }
    match quantity {
        Quantity::Fan => match fan_sensor_name(file_name) {
            Some(name) => Some((name, String::new())),
            None => None,
        },
        Quantity::Temperature => plain("temp", temperature_sensor_number(file_name)),
        Quantity::Power => worded("power", power_sensor(file_name)),
        Quantity::Voltage => plain("in", input_sensor_number(file_name, "in")),
        Quantity::Current => plain("curr", input_sensor_number(file_name, "curr")),
        Quantity::Limit => worded("temp", temperature_limit(file_name)),
        Quantity::Alarm => plain("temp", sensor_number_with_suffix(file_name, "temp", "alarm")),
    }
}

/// Whether a file is one that is read: that of a sensor, or a label.
pub open spec fn wanted(file_name: Seq<char>) -> bool {
    ||| ends(file_name, "_label"@)
    ||| sensor_of(Quantity::Fan, file_name) is Some
    ||| sensor_of(Quantity::Temperature, file_name) is Some
    ||| sensor_of(Quantity::Power, file_name) is Some
    ||| sensor_of(Quantity::Voltage, file_name) is Some
    ||| sensor_of(Quantity::Current, file_name) is Some
    ||| sensor_of(Quantity::Limit, file_name) is Some
    ||| sensor_of(Quantity::Alarm, file_name) is Some
}

/// Whether a file is one that is read.
pub fn is_wanted(file_name: &str) -> (r: bool)
    ensures
        r == wanted(file_name@),
{
    let chars: Vec<char> = characters(file_name);
    strip_suffix(chars.as_slice(), "_label").is_some() || sensor_in(
        Quantity::Fan,
        file_name,
    ).is_some() || sensor_in(Quantity::Temperature, file_name).is_some() || sensor_in(
        Quantity::Power,
        file_name,
    ).is_some() || sensor_in(Quantity::Voltage, file_name).is_some() || sensor_in(
        Quantity::Current,
        file_name,
    ).is_some() || sensor_in(Quantity::Limit, file_name).is_some() || sensor_in(
        Quantity::Alarm,
        file_name,
    ).is_some()
}

/// Nothing hangs on a file that is not read: it is of no sensor, and the label
/// of none.
pub proof fn law_other_files_say_nothing(
    file_name: Seq<char>,
    quantity: Quantity,
    sensor: Seq<char>,
)
    requires
        !wanted(file_name),
    ensures
        sensor_of(quantity, file_name) is None,
        file_name != sensor + "_label"@,
{
    assert((sensor + "_label"@).skip(sensor.len() as int) =~= "_label"@);
}

/// The lowest temperature that counts as a limit, in thousandths of a degree.
pub const LOWEST_LIMIT: i64 = -100_000;

/// The highest temperature that counts as a limit, in thousandths of a degree.
pub const HIGHEST_LIMIT: i64 = 250_000;

/// An unsigned number as a value.
pub open spec fn unsigned_value(n: Option<u64>) -> Option<int> {
    match n {
        Some(n) => Some(n as int),
        None => None,
    }
}

/// A signed number as a value, if it lies in a range.
pub open spec fn value_within(n: Option<i64>, low: int, high: int) -> Option<int> {
    match n {
        Some(n) => if low <= n <= high {
            Some(n as int)
        } else {
            None
        },
        None => None,
    }
}

/// The value that a file's content spells. Speeds and powers are not negative,
/// nor are alarms, and a limit that no hardware has is not one.
pub open spec fn value_of(quantity: Quantity, content: Seq<char>) -> Option<int> {
    let text = trimmed(content);
    match quantity {
        Quantity::Fan | Quantity::Power => unsigned_value(parsed_u64(text)),
        Quantity::Temperature | Quantity::Voltage | Quantity::Current => value_within(
            parsed_i64(text),
            i64::MIN as int,
            i64::MAX as int,
        ),
        Quantity::Limit => value_within(
            parsed_i64(text),
            LOWEST_LIMIT as int,
            HIGHEST_LIMIT as int,
        ),
        Quantity::Alarm => value_within(parsed_i64(text), 0, i64::MAX as int),
    }
}

spec fn optional_value(value: Option<i128>) -> Option<int> {
    match value {
        Some(value) => Some(value as int),
        None => None,
    }
}

fn value_in(quantity: Quantity, content: &str) -> (r: Option<i128>)
    ensures
        optional_value(r) == value_of(quantity, content@),
{
    let chars: Vec<char> = characters(content);
    let text = trim(chars.as_slice());
    match quantity {
        Quantity::Fan | Quantity::Power => match parse_u64(text) {
            Some(n) => Some(n as i128),
            None => None,
        },
        Quantity::Temperature | Quantity::Voltage | Quantity::Current => match parse_i64(text) {
            Some(n) => Some(n as i128),
            None => None,
        },
        Quantity::Limit => match parse_i64(text) {
            Some(n) => if LOWEST_LIMIT <= n && n <= HIGHEST_LIMIT {
                Some(n as i128)
            } else {
                None
            },
            None => None,
        },
        Quantity::Alarm => match parse_i64(text) {
            Some(n) => if 0 <= n {
                Some(n as i128)
            } else {
                None
            },
            None => None,
        },
    }
}

/// What the first file of the given name holds, from position `from` on.
pub open spec fn content_from(files: Seq<SensorFileView>, name: Seq<char>, from: int) -> Option<
    Seq<char>,
>
    decreases files.len() - from,
{
    if from < 0 || from >= files.len() {
        None
    } else if files[from].name == name {
        files[from].content
    } else {
        content_from(files, name, from + 1)
    }
}

/// The name that is shown of a sensor: its label, or its own name where it has no
/// label. The empty label of a fan is shown, that of another sensor is not.
pub open spec fn shown_name(
    quantity: Quantity,
    files: Seq<SensorFileView>,
    sensor: Seq<char>,
) -> Seq<char> {
    match content_from(files, sensor + "_label"@, 0) {
        Some(label) => if quantity == Quantity::Fan || trimmed(label).len() > 0 {
            trimmed(label)
        } else {
            sensor
        },
        None => sensor,
    }
}

fn content<'a>(files: &'a Vec<SensorFile>, name: &str) -> (r: Option<&'a String>)
    ensures
        referred_text(r) == content_from(views(files@), name@, 0),
{
    let ghost seen = views(files@);
    let mut i: usize = 0;
    while i < files.len()
        invariant
            i <= files@.len(),
            seen == views(files@),
            content_from(seen, name@, 0) == content_from(seen, name@, i as int),
        decreases files@.len() - i,
    {
        assert(seen[i as int] == files@[i as int]@);
        if equals(characters(files[i].name.as_str()).as_slice(), name) {
            return match &files[i].content {
                Some(text) => Some(text),
                None => None,
            };
        }
        i += 1;
    }
    None
}

fn name_shown(quantity: Quantity, files: &Vec<SensorFile>, sensor: String) -> (r: String)
    ensures
        r@ == shown_name(quantity, views(files@), sensor@),
{
    match content(files, join_texts(sensor.as_str(), "_label").as_str()) {
        Some(label) => {
            let chars: Vec<char> = characters(label.as_str());
            let text = trim(chars.as_slice());
            if quantity == Quantity::Fan || text.len() > 0 {
                owned(text)
            } else {
                sensor
            }
        },
        None => sensor,
    }
}

/// A reading of a sensor.
#[derive(Clone, Debug)]
pub struct Reading {
    pub chip: String,
    pub sensor: String,
    /// What is read, where a sensor has several readings.
    pub detail: String,
    pub value: i128,
}

/// The view of `Reading`.
#[verifier::ext_equal]
pub struct ReadingView {
    pub chip: Seq<char>,
    pub sensor: Seq<char>,
    pub detail: Seq<char>,
    pub value: int,
}

impl View for Reading {
    type V = ReadingView;

    open spec fn view(&self) -> ReadingView {
        ReadingView {
            chip: self.chip@,
            sensor: self.sensor@,
            detail: self.detail@,
            value: self.value as int,
        }
    }
}

/// Readings are ordered by chip, then by sensor, then by what is read.
impl Ranked for Reading {
    open spec fn le(a: ReadingView, b: ReadingView) -> bool {
        texts_le(seq![a.chip, a.sensor, a.detail], seq![b.chip, b.sensor, b.detail])
    }

    fn at_most(&self, other: &Self) -> (r: bool) {
        let ghost a = seq![self.chip@, self.sensor@, self.detail@];
        let ghost b = seq![other.chip@, other.sensor@, other.detail@];
        proof {
            reveal_with_fuel(texts_le, 4);
            assert(a.skip(1) =~= seq![self.sensor@, self.detail@]);
            assert(b.skip(1) =~= seq![other.sensor@, other.detail@]);
            assert(a.skip(1).skip(1) =~= seq![self.detail@]);
            assert(b.skip(1).skip(1) =~= seq![other.detail@]);
            assert(a.skip(1).skip(1).skip(1) =~= Seq::<Seq<char>>::empty());
            lemma_text_reflexive(self.detail@, 0);
        }
        if self.chip != other.chip {
            text_at_most(self.chip.as_str(), other.chip.as_str())
        } else if self.sensor != other.sensor {
            text_at_most(self.sensor.as_str(), other.sensor.as_str())
        } else {
            text_at_most(self.detail.as_str(), other.detail.as_str())
        }
    }

    proof fn total(a: ReadingView, b: ReadingView) {
        lemma_texts_total(seq![a.chip, a.sensor, a.detail], seq![b.chip, b.sensor, b.detail]);
    }

    proof fn transitive(a: ReadingView, b: ReadingView, c: ReadingView) {
        lemma_texts_transitive(
            seq![a.chip, a.sensor, a.detail],
            seq![b.chip, b.sensor, b.detail],
            seq![c.chip, c.sensor, c.detail],
        );
    }
}

/// The name of a chip. One without a name is unknown; a fan is then found by the
/// directory.
pub open spec fn chip_name(chip: ChipView, quantity: Quantity) -> Seq<char> {
    match chip.name {
        Some(name) => trimmed(name),
        None => if quantity == Quantity::Fan {
            trimmed(chip.directory)
        } else {
            "unknown"@
        },
    }
}

/// What a file of a chip says of a quantity.
pub open spec fn reading_of(
    chip: Seq<char>,
    files: Seq<SensorFileView>,
    quantity: Quantity,
    file: SensorFileView,
) -> Option<ReadingView> {
    match (sensor_of(quantity, file.name), file.content) {
        (Some((sensor, detail)), Some(content)) => match value_of(quantity, content) {
            Some(value) => Some(
                ReadingView { chip, sensor: shown_name(quantity, files, sensor), detail, value },
            ),
            None => None,
        },
        _ => None,
    }
}

/// What the files of a chip say of a quantity, in the order of the files.
pub open spec fn chip_readings(chip: ChipView, quantity: Quantity) -> Seq<ReadingView> {
    match chip.files {
        Some(files) => kept(
            files,
            |file: SensorFileView| reading_of(chip_name(chip, quantity), files, quantity, file),
        ),
        None => Seq::empty(),
    }
}

/// What some chips say of a quantity, in the order of the chips.
pub open spec fn readings_of(chips: Seq<ChipView>, quantity: Quantity) -> Seq<ReadingView>
    decreases chips.len(),
{
    if chips.len() == 0 {
        Seq::empty()
    } else {
        readings_of(chips.drop_last(), quantity) + chip_readings(chips.last(), quantity)
    }
}

fn name_of_chip(chip: &Chip, quantity: Quantity) -> (r: String)
    ensures
        r@ == chip_name(chip@, quantity),
{
    match &chip.name {
        Some(name) => trim_text(name.as_str()),
        None => if quantity == Quantity::Fan {
            trim_text(chip.directory.as_str())
        } else {
            "unknown".to_owned()
        },
    }
}

spec fn optional_reading(reading: Option<Reading>) -> Option<ReadingView> {
    match reading {
        Some(reading) => Some(reading@),
        None => None,
    }
}

fn reading_in(
    chip: &String,
    files: &Vec<SensorFile>,
    quantity: Quantity,
    file: &SensorFile,
) -> (r: Option<Reading>)
    ensures
        optional_reading(r) == reading_of(chip@, views(files@), quantity, file@),
{
    match (sensor_in(quantity, file.name.as_str()), &file.content) {
        (Some((sensor, detail)), Some(content)) => match value_in(quantity, content.as_str()) {
            Some(value) => Some(
                Reading {
                    chip: chip.clone(),
                    sensor: name_shown(quantity, files, sensor),
                    detail,
                    value,
                },
            ),
            None => None,
        },
        _ => None,
    }
}

fn push_chip_readings(out: &mut Vec<Reading>, chip: &Chip, quantity: Quantity)
    ensures
        views(final(out)@) == views(old(out)@) + chip_readings(chip@, quantity),
{
    let ghost start = views(out@);
    match &chip.files {
        Some(files) => {
            let name: String = name_of_chip(chip, quantity);
            let ghost seen = views(files@);
            let ghost f = |file: SensorFileView|
                reading_of(chip_name(chip@, quantity), seen, quantity, file);
            let mut i: usize = 0;
            proof {
                lemma_kept_none(seen, f);
                assert(views(out@) =~= start + kept(seen.take(0), f));
            }
            while i < files.len()
                invariant
                    i <= files@.len(),
                    seen == views(files@),
                    name@ == chip_name(chip@, quantity),
                    f == |file: SensorFileView|
                        reading_of(chip_name(chip@, quantity), seen, quantity, file),
                    views(out@) == start + kept(seen.take(i as int), f),
                decreases files@.len() - i,
            {
                let ghost before = views(out@);
                proof {
                    lemma_kept_next(seen, f, i as int);
                    assert(seen[i as int] == files@[i as int]@);
                }
                if let Some(reading) = reading_in(&name, files, quantity, &files[i]) {
                    let ghost found = reading@;
                    out.push(reading);
                    assert(views(out@) =~= before.push(found));
                    assert(views(out@) =~= start + kept(seen.take(i + 1), f));
                }
                i += 1;
            }
        },
        None => {
            assert(views(out@) =~= start + chip_readings(chip@, quantity));
        },
    }
}

/// What the chips say of a quantity, sorted by chip, sensor and what is read.
pub fn read_sensors(chips: &Vec<Chip>, quantity: Quantity) -> (r: Vec<Reading>)
    ensures
        views(r@) == arranged::<Reading>(readings_of(views(chips@), quantity)),
{
    let ghost seen = views(chips@);
    let mut r: Vec<Reading> = Vec::new();
    let mut i: usize = 0;
    assert(views(r@) =~= readings_of(seen.take(0), quantity));
    while i < chips.len()
        invariant
            i <= chips@.len(),
            seen == views(chips@),
            views(r@) == readings_of(seen.take(i as int), quantity),
        decreases chips@.len() - i,
    {
        assert(seen.take(i + 1).drop_last() =~= seen.take(i as int));
        assert(seen.take(i + 1).last() == chips@[i as int]@);
        push_chip_readings(&mut r, &chips[i], quantity);
        i += 1;
    }
    assert(seen.take(i as int) =~= seen);
    sort(r)
}

/// The range of the values of a quantity.
pub open spec fn in_range(quantity: Quantity, value: int) -> bool {
    match quantity {
        Quantity::Fan | Quantity::Power => 0 <= value <= u64::MAX,
        Quantity::Temperature | Quantity::Voltage | Quantity::Current => i64::MIN <= value
            <= i64::MAX,
        Quantity::Limit => LOWEST_LIMIT <= value <= HIGHEST_LIMIT,
        Quantity::Alarm => 0 <= value <= i64::MAX,
    }
}

/// No reading is out of the range of what it measures. In particular a limit that
/// no hardware has is never reported.
pub proof fn law_readings_are_in_range(chips: Seq<ChipView>, quantity: Quantity, k: int)
    requires
        0 <= k < readings_of(chips, quantity).len(),
    ensures
        in_range(quantity, readings_of(chips, quantity)[k].value),
    decreases chips.len(),
{
    let before = readings_of(chips.drop_last(), quantity);
    if k < before.len() {
        law_readings_are_in_range(chips.drop_last(), quantity, k);
    } else {
        let chip = chips.last();
        if let Some(files) = chip.files {
            let f = |file: SensorFileView|
                reading_of(chip_name(chip, quantity), files, quantity, file);
            let i = lemma_kept_source(files, f, k - before.len());
        }
    }
}

proof fn lemma_arranged_in_range(chips: Seq<ChipView>, quantity: Quantity)
    ensures
        ({
            let r = arranged::<Reading>(readings_of(chips, quantity));
            forall|i: int| 0 <= i < r.len() ==> in_range(quantity, (#[trigger] r[i]).value)
        }),
{
    let all = readings_of(chips, quantity);
    let r = arranged::<Reading>(all);
    law_arranged_is_sorted::<Reading>(all);
    assert forall|i: int| 0 <= i < r.len() implies in_range(
        quantity,
        (#[trigger] r[i]).value,
    ) by {
        assert(r.contains(r[i]));
        lemma_same_items(r, all, r[i]);
        let k = choose|k: int| 0 <= k < all.len() && all[k] == r[i];
        law_readings_are_in_range(chips, quantity, k);
    }
}

proof fn lemma_no_detail(chips: Seq<ChipView>, quantity: Quantity, k: int)
    requires
        quantity == Quantity::Fan || quantity == Quantity::Alarm,
        0 <= k < readings_of(chips, quantity).len(),
    ensures
        readings_of(chips, quantity)[k].detail == Seq::<char>::empty(),
    decreases chips.len(),
{
    let before = readings_of(chips.drop_last(), quantity);
    if k < before.len() {
        lemma_no_detail(chips.drop_last(), quantity, k);
    } else {
        let chip = chips.last();
        if let Some(files) = chip.files {
            let f = |file: SensorFileView|
                reading_of(chip_name(chip, quantity), files, quantity, file);
            let i = lemma_kept_source(files, f, k - before.len());
        }
    }
}

proof fn lemma_without_detail(a: ReadingView, b: ReadingView)
    requires
        a.detail == b.detail,
    ensures
        texts_le(seq![a.chip, a.sensor], seq![b.chip, b.sensor]) == Reading::le(a, b),
{
    let x = seq![a.chip, a.sensor, a.detail];
    let y = seq![b.chip, b.sensor, b.detail];
    let u = seq![a.chip, a.sensor];
    let v = seq![b.chip, b.sensor];
    reveal_with_fuel(texts_le, 4);
    assert(x.skip(1) =~= seq![a.sensor, a.detail]);
    assert(y.skip(1) =~= seq![b.sensor, b.detail]);
    assert(x.skip(1).skip(1) =~= seq![a.detail]);
    assert(y.skip(1).skip(1) =~= seq![b.detail]);
    assert(x.skip(1).skip(1).skip(1) =~= Seq::<Seq<char>>::empty());
    assert(u.skip(1) =~= seq![a.sensor]);
    assert(v.skip(1) =~= seq![b.sensor]);
    assert(u.skip(1).skip(1) =~= Seq::<Seq<char>>::empty());
}

fn at_most_by_sensor(
    chip: &String,
    sensor: &String,
    other_chip: &String,
    other_sensor: &String,
) -> (r: bool)
    ensures
        r == texts_le(seq![chip@, sensor@], seq![other_chip@, other_sensor@]),
{
    let ghost a = seq![chip@, sensor@];
    let ghost b = seq![other_chip@, other_sensor@];
    proof {
        reveal_with_fuel(texts_le, 3);
        assert(a.skip(1) =~= seq![sensor@]);
        assert(b.skip(1) =~= seq![other_sensor@]);
        assert(a.skip(1).skip(1) =~= Seq::<Seq<char>>::empty());
        lemma_text_reflexive(sensor@, 0);
    }
    if *chip != *other_chip {
        text_at_most(chip.as_str(), other_chip.as_str())
    } else {
        text_at_most(sensor.as_str(), other_sensor.as_str())
    }
}

/// Fans are ordered by chip, then by sensor.
impl Ranked for Fan {
    open spec fn le(a: FanView, b: FanView) -> bool {
        texts_le(seq![a.chip, a.sensor], seq![b.chip, b.sensor])
    }

    fn at_most(&self, other: &Self) -> (r: bool) {
        at_most_by_sensor(&self.chip, &self.sensor, &other.chip, &other.sensor)
    }

    proof fn total(a: FanView, b: FanView) {
        lemma_texts_total(seq![a.chip, a.sensor], seq![b.chip, b.sensor]);
    }

    proof fn transitive(a: FanView, b: FanView, c: FanView) {
        lemma_texts_transitive(
            seq![a.chip, a.sensor],
            seq![b.chip, b.sensor],
            seq![c.chip, c.sensor],
        );
    }
}

/// A reading of a fan.
pub open spec fn fan_of(reading: ReadingView) -> FanView {
    FanView { chip: reading.chip, sensor: reading.sensor, rpm: reading.value as u64 }
}

/// What some chips say of their fans, in the order of the chips.
pub open spec fn fans_of(chips: Seq<ChipView>) -> Seq<FanView> {
    readings_of(chips, Quantity::Fan).map_values(|reading: ReadingView| fan_of(reading))
}

/// The fans and their speeds, sorted by chip and sensor.
pub fn read_fans(chips: &Vec<Chip>) -> (r: Vec<Fan>)
    ensures
        views(r@) == arranged::<Fan>(fans_of(views(chips@))),
{
    let readings: Vec<Reading> = read_sensors(chips, Quantity::Fan);
    let ghost seen = views(readings@);
    let ghost f = |reading: ReadingView| fan_of(reading);
    proof {
        lemma_arranged_in_range(views(chips@), Quantity::Fan);
    }
    let mut r: Vec<Fan> = Vec::new();
    let mut i: usize = 0;
    assert(views(r@) =~= seen.take(0).map_values(f));
    while i < readings.len()
        invariant
            i <= readings@.len(),
            seen == views(readings@),
            f == |reading: ReadingView| fan_of(reading),
            forall|k: int| 0 <= k < seen.len() ==> in_range(
                Quantity::Fan,
                (#[trigger] seen[k]).value,
            ),
            views(r@) == seen.take(i as int).map_values(f),
        decreases readings@.len() - i,
    {
        let reading: &Reading = &readings[i];
        let ghost done = views(r@);
        assert(seen[i as int] == reading@);
        let fan = Fan {
            chip: reading.chip.clone(),
            sensor: reading.sensor.clone(),
            rpm: reading.value as u64,
        };
        let ghost found = fan@;
        r.push(fan);
        assert(views(r@) =~= done.push(found));
        assert(views(r@) =~= seen.take(i + 1).map_values(f));
        i += 1;
    }
    proof {
        let all = readings_of(views(chips@), Quantity::Fan);
        assert(seen.take(i as int) =~= seen);
        assert forall|i: int, j: int| 0 <= i < all.len() && 0 <= j < all.len() implies
            Fan::le(f(#[trigger] all[i]), f(#[trigger] all[j])) == Reading::le(all[i], all[j]) by {
            lemma_no_detail(views(chips@), Quantity::Fan, i);
            lemma_no_detail(views(chips@), Quantity::Fan, j);
            lemma_without_detail(all[i], all[j]);
        }
        law_arranging_follows_the_order::<Reading, Fan>(all, f);
    }
    r
}

/// Alarms are ordered by chip, then by sensor.
impl Ranked for TemperatureAlarm {
    open spec fn le(a: TemperatureAlarmView, b: TemperatureAlarmView) -> bool {
        texts_le(seq![a.chip, a.sensor], seq![b.chip, b.sensor])
    }

    fn at_most(&self, other: &Self) -> (r: bool) {
        at_most_by_sensor(&self.chip, &self.sensor, &other.chip, &other.sensor)
    }

    proof fn total(a: TemperatureAlarmView, b: TemperatureAlarmView) {
        lemma_texts_total(seq![a.chip, a.sensor], seq![b.chip, b.sensor]);
    }

    proof fn transitive(
        a: TemperatureAlarmView,
        b: TemperatureAlarmView,
        c: TemperatureAlarmView,
    ) {
        lemma_texts_transitive(
            seq![a.chip, a.sensor],
            seq![b.chip, b.sensor],
            seq![c.chip, c.sensor],
        );
    }
}

/// A reading of an alarm.
pub open spec fn alarm_of(reading: ReadingView) -> TemperatureAlarmView {
    TemperatureAlarmView {
        chip: reading.chip,
        sensor: reading.sensor,
        value: reading.value as u64,
    }
}

/// What some chips say of their temperature alarms, in the order of the chips.
pub open spec fn alarms_of(chips: Seq<ChipView>) -> Seq<TemperatureAlarmView> {
    readings_of(chips, Quantity::Alarm).map_values(|reading: ReadingView| alarm_of(reading))
}

/// The temperature alarms, sorted by chip and sensor.
pub fn read_temperature_alarms(chips: &Vec<Chip>) -> (r: Vec<TemperatureAlarm>)
    ensures
        views(r@) == arranged::<TemperatureAlarm>(alarms_of(views(chips@))),
{
    let readings: Vec<Reading> = read_sensors(chips, Quantity::Alarm);
    let ghost seen = views(readings@);
    let ghost f = |reading: ReadingView| alarm_of(reading);
    proof {
        lemma_arranged_in_range(views(chips@), Quantity::Alarm);
    }
    let mut r: Vec<TemperatureAlarm> = Vec::new();
    let mut i: usize = 0;
    assert(views(r@) =~= seen.take(0).map_values(f));
    while i < readings.len()
        invariant
            i <= readings@.len(),
            seen == views(readings@),
            f == |reading: ReadingView| alarm_of(reading),
            forall|k: int| 0 <= k < seen.len() ==> in_range(
                Quantity::Alarm,
                (#[trigger] seen[k]).value,
            ),
            views(r@) == seen.take(i as int).map_values(f),
        decreases readings@.len() - i,
    {
        let reading: &Reading = &readings[i];
        let ghost done = views(r@);
        assert(seen[i as int] == reading@);
        let alarm = TemperatureAlarm {
            chip: reading.chip.clone(),
            sensor: reading.sensor.clone(),
            value: reading.value as u64,
        };
        let ghost found = alarm@;
        r.push(alarm);
        assert(views(r@) =~= done.push(found));
        assert(views(r@) =~= seen.take(i + 1).map_values(f));
        i += 1;
    }
    proof {
        let all = readings_of(views(chips@), Quantity::Alarm);
        assert(seen.take(i as int) =~= seen);
        assert forall|i: int, j: int| 0 <= i < all.len() && 0 <= j < all.len() implies
            TemperatureAlarm::le(f(#[trigger] all[i]), f(#[trigger] all[j])) == Reading::le(
            all[i],
            all[j],
        ) by {
            lemma_no_detail(views(chips@), Quantity::Alarm, i);
            lemma_no_detail(views(chips@), Quantity::Alarm, j);
            lemma_without_detail(all[i], all[j]);
        }
        law_arranging_follows_the_order::<Reading, TemperatureAlarm>(all, f);
    }
    r
}

/// The temperatures, in thousandths of a degree.
pub fn read_temperatures(chips: &Vec<Chip>) -> (r: Vec<Reading>)
    ensures
        views(r@) == arranged::<Reading>(readings_of(views(chips@), Quantity::Temperature)),
{
    read_sensors(chips, Quantity::Temperature)
}

/// The powers, in millionths of a watt.
pub fn read_power(chips: &Vec<Chip>) -> (r: Vec<Reading>)
    ensures
        views(r@) == arranged::<Reading>(readings_of(views(chips@), Quantity::Power)),
{
    read_sensors(chips, Quantity::Power)
}

/// The temperature limits, in thousandths of a degree.
pub fn read_temperature_limits(chips: &Vec<Chip>) -> (r: Vec<Reading>)
    ensures
        views(r@) == arranged::<Reading>(readings_of(views(chips@), Quantity::Limit)),
{
    read_sensors(chips, Quantity::Limit)
}

/// An electrical quantity besides power.
#[derive(Clone, Copy, Debug, PartialEq, Eq, Structural)]
pub enum Electrical {
    Voltage,
    Current,
}

impl Electrical {
    /// What is measured.
    pub open spec fn quantity(self) -> Quantity {
        match self {
            Electrical::Voltage => Quantity::Voltage,
            Electrical::Current => Quantity::Current,
        }
    }
}

/// The voltages or the currents, in thousandths of a volt or an ampere.
pub fn read_electrical_readings(chips: &Vec<Chip>, kind: Electrical) -> (r: Vec<Reading>)
    ensures
        views(r@) == arranged::<Reading>(readings_of(views(chips@), kind.quantity())),
{
    match kind {
        Electrical::Voltage => read_sensors(chips, Quantity::Voltage),
        Electrical::Current => read_sensors(chips, Quantity::Current),
    }
}

proof fn lemma_numbered(prefix: Seq<char>, number: Seq<char>, suffix: Seq<char>)
    requires
        digits(number),
    ensures
        numbered(prefix + number + suffix, prefix, suffix) == Some(number),
{
    let name = prefix + number + suffix;
    assert(name.take(prefix.len() as int) =~= prefix);
    let rest = name.skip(prefix.len() as int);
    assert(rest =~= number + suffix);
    assert(rest.skip(rest.len() - suffix.len()) =~= suffix);
    assert(rest.take(rest.len() - suffix.len()) =~= number);
}

proof fn lemma_other_suffix(
    prefix: Seq<char>,
    number: Seq<char>,
    suffix: Seq<char>,
    other: Seq<char>,
)
    requires
        digits(number),
        suffix.len() > 0,
        other.len() > 0,
        suffix.last() != other.last(),
    ensures
        numbered(prefix + number + suffix, prefix, other) is None,
{
    let name = prefix + number + suffix;
    assert(name.take(prefix.len() as int) =~= prefix);
    let rest = name.skip(prefix.len() as int);
    assert(rest =~= number + suffix);
    if ends(rest, other) {
        assert(rest.skip(rest.len() - other.len()).last() == rest.last());
        assert(rest.last() == suffix.last());
    }
}

/// The name of a file tells the sensor and what is read of it: the input of a fan, a
/// temperature, a voltage or a current, the input or the average of a power, and the
/// limits and the alarm of a temperature.
pub proof fn law_a_file_names_its_sensor(number: Seq<char>)
    requires
        digits(number),
    ensures
        sensor_of(Quantity::Fan, "fan"@ + number + "_input"@)
            == Some(("fan"@ + number, Seq::<char>::empty())),
        sensor_of(Quantity::Temperature, "temp"@ + number + "_input"@)
            == Some(("temp"@ + number, Seq::<char>::empty())),
        sensor_of(Quantity::Voltage, "in"@ + number + "_input"@)
            == Some(("in"@ + number, Seq::<char>::empty())),
        sensor_of(Quantity::Current, "curr"@ + number + "_input"@)
            == Some(("curr"@ + number, Seq::<char>::empty())),
        sensor_of(Quantity::Alarm, "temp"@ + number + "_alarm"@)
            == Some(("temp"@ + number, Seq::<char>::empty())),
        sensor_of(Quantity::Power, "power"@ + number + "_input"@)
            == Some(("power"@ + number, "input"@)),
        sensor_of(Quantity::Power, "power"@ + number + "_average"@)
            == Some(("power"@ + number, "average"@)),
        sensor_of(Quantity::Limit, "temp"@ + number + "_min"@) == Some(("temp"@ + number, "min"@)),
        sensor_of(Quantity::Limit, "temp"@ + number + "_max"@) == Some(("temp"@ + number, "max"@)),
        sensor_of(Quantity::Limit, "temp"@ + number + "_crit"@)
            == Some(("temp"@ + number, "crit"@)),
        sensor_of(Quantity::Limit, "temp"@ + number + "_emergency"@)
            == Some(("temp"@ + number, "emergency"@)),
{
    reveal_strlit("_alarm");
    reveal_strlit("_average");
    reveal_strlit("_crit");
    reveal_strlit("_emergency");
    reveal_strlit("_input");
    reveal_strlit("_max");
    reveal_strlit("_min");
    reveal_strlit("curr");
    reveal_strlit("fan");
    reveal_strlit("in");
    reveal_strlit("power");
    reveal_strlit("temp");
    lemma_numbered("fan"@, number, "_input"@);
    lemma_numbered("temp"@, number, "_input"@);
    lemma_numbered("in"@, number, "_input"@);
    lemma_numbered("curr"@, number, "_input"@);
    lemma_numbered("temp"@, number, "_alarm"@);
    lemma_numbered("power"@, number, "_input"@);
    lemma_numbered("power"@, number, "_average"@);
    lemma_numbered("temp"@, number, "_min"@);
    lemma_numbered("temp"@, number, "_max"@);
    lemma_numbered("temp"@, number, "_crit"@);
    lemma_numbered("temp"@, number, "_emergency"@);
    lemma_other_suffix("power"@, number, "_average"@, "_input"@);
    lemma_other_suffix("temp"@, number, "_max"@, "_min"@);
    lemma_other_suffix("temp"@, number, "_crit"@, "_min"@);
    lemma_other_suffix("temp"@, number, "_crit"@, "_max"@);
    lemma_other_suffix("temp"@, number, "_emergency"@, "_min"@);
    lemma_other_suffix("temp"@, number, "_emergency"@, "_max"@);
    lemma_other_suffix("temp"@, number, "_emergency"@, "_crit"@);
}

/// What a file holds is read as a number, whatever white space stands around it. What may
/// be negative is read with its sign; what may not be, an alarm or a limit that no
/// hardware has, says nothing.
pub proof fn law_a_sensor_value_reads_back(before: Seq<char>, n: nat, after: Seq<char>)
    requires
        blank(before),
        blank(after),
        n <= i64::MAX,
    ensures
        ({
            let written = before + decimal(n) + after;
            let negative = before + (seq!['-'] + decimal(n)) + after;
            &&& value_of(Quantity::Fan, written) == Some(n as int)
            &&& value_of(Quantity::Power, written) == Some(n as int)
            &&& value_of(Quantity::Temperature, written) == Some(n as int)
            &&& value_of(Quantity::Voltage, written) == Some(n as int)
            &&& value_of(Quantity::Current, written) == Some(n as int)
            &&& value_of(Quantity::Alarm, written) == Some(n as int)
            &&& n <= 250_000 ==> value_of(Quantity::Limit, written) == Some(n as int)
            &&& n > 250_000 ==> value_of(Quantity::Limit, written) is None
            &&& value_of(Quantity::Temperature, negative) == Some(-n)
            &&& value_of(Quantity::Voltage, negative) == Some(-n)
            &&& value_of(Quantity::Current, negative) == Some(-n)
            &&& n <= 100_000 ==> value_of(Quantity::Limit, negative) == Some(-n)
            &&& n > 100_000 ==> value_of(Quantity::Limit, negative) is None
            &&& n > 0 ==> value_of(Quantity::Alarm, negative) is None
            &&& value_of(Quantity::Fan, negative) is None
            &&& value_of(Quantity::Power, negative) is None
        }),
{
    law_signed_numbers_read_back(before, n, after);
    lemma_decimal_is_a_word(n);
    law_decimal_reads_back(n);
    let s = decimal(n);
    let t = seq!['-'] + s;
    assert(!whitespace(s[0]) && !whitespace(s[s.len() - 1]));
    assert(t[0] == '-');
    assert(t.last() == s[s.len() - 1]);
    law_trimming_takes_the_blanks(before, s, after);
    law_trimming_takes_the_blanks(before, t, after);
}

proof fn lemma_content(files: Seq<SensorFileView>, k: int, from: int)
    requires
        0 <= from <= k < files.len(),
        forall|j: int| from <= j < k ==> (#[trigger] files[j]).name != files[k].name,
    ensures
        content_from(files, files[k].name, from) == files[k].content,
    decreases k - from,
{
    if from < k {
        assert(files[from].name != files[k].name);
        lemma_content(files, k, from + 1);
    }
}

proof fn lemma_no_content(files: Seq<SensorFileView>, name: Seq<char>, from: int)
    requires
        0 <= from,
        forall|j: int| from <= j < files.len() ==> (#[trigger] files[j]).name != name,
    ensures
        content_from(files, name, from) is None,
    decreases files.len() - from,
{
    if from < files.len() {
        lemma_no_content(files, name, from + 1);
    }
}

/// A sensor is shown by its label, without the blanks around it; by its own name where it
/// has no label, and, unless it is a fan, where its label is blank.
pub proof fn law_a_sensor_is_shown_by_its_label(
    quantity: Quantity,
    files: Seq<SensorFileView>,
    sensor: Seq<char>,
    k: int,
    before: Seq<char>,
    label: Seq<char>,
    after: Seq<char>,
)
    requires
        0 <= k < files.len(),
        files[k].name == sensor + "_label"@,
        forall|j: int| 0 <= j < k ==> (#[trigger] files[j]).name != files[k].name,
        blank(before),
        blank(after),
        label.len() > 0 ==> !whitespace(label[0]) && !whitespace(label[label.len() - 1]),
    ensures
        files[k].content == Some(before + label + after) && label.len() > 0 ==> shown_name(
            quantity,
            files,
            sensor,
        ) == label,
        files[k].content == Some(before) && quantity != Quantity::Fan ==> shown_name(
            quantity,
            files,
            sensor,
        ) == sensor,
        files[k].content == Some(before) && quantity == Quantity::Fan ==> shown_name(
            quantity,
            files,
            sensor,
        ).len() == 0,
        files[k].content is None ==> shown_name(quantity, files, sensor) == sensor,
{
    lemma_content(files, k, 0);
    if label.len() > 0 {
        law_trimming_takes_the_blanks(before, label, after);
    }
    lemma_blanks_end(before, 0, before.len() as int);
}

/// A sensor without a file for its label is shown by its own name.
pub proof fn law_an_unlabelled_sensor_is_shown_by_its_name(
    quantity: Quantity,
    files: Seq<SensorFileView>,
    sensor: Seq<char>,
)
    requires
        forall|j: int| 0 <= j < files.len() ==> (#[trigger] files[j]).name != sensor + "_label"@,
    ensures
        shown_name(quantity, files, sensor) == sensor,
{
    lemma_no_content(files, sensor + "_label"@, 0);
}

/// The readings of chips are those of each of them.
pub proof fn law_readings_of_both(a: Seq<ChipView>, b: Seq<ChipView>, quantity: Quantity)
    ensures
        readings_of(a + b, quantity) == readings_of(a, quantity) + readings_of(b, quantity),
    decreases b.len(),
{
    if b.len() == 0 {
        assert(a + b =~= a);
        assert(readings_of(a, quantity) + readings_of(b, quantity) =~= readings_of(a, quantity));
    } else {
        law_readings_of_both(a, b.drop_last(), quantity);
        assert((a + b).drop_last() =~= a + b.drop_last());
        assert((a + b).last() == b.last());
        assert(readings_of(a + b, quantity) =~= readings_of(a, quantity) + readings_of(
            b,
            quantity,
        ));
    }
}

/// What a file of a chip says is among the readings: under the name of the chip and of the
/// sensor, with what is read and its value. A chip without a name is unknown, and where
/// it has a fan, the fan is found by the directory.
pub proof fn law_a_file_is_read(
    chip: ChipView,
    i: int,
    quantity: Quantity,
    sensor: Seq<char>,
    detail: Seq<char>,
    value: int,
) -> (k: int)
    requires
        chip.files is Some,
        0 <= i < chip.files->0.len(),
        sensor_of(quantity, chip.files->0[i].name) == Some((sensor, detail)),
        chip.files->0[i].content is Some,
        value_of(quantity, chip.files->0[i].content->0) == Some(value),
    ensures
        0 <= k < readings_of(seq![chip], quantity).len(),
        ({
            let reading = readings_of(seq![chip], quantity)[k];
            &&& reading.sensor == shown_name(quantity, chip.files->0, sensor)
            &&& reading.detail == detail
            &&& reading.value == value
            &&& chip.name is Some ==> reading.chip == trimmed(chip.name->0)
            &&& chip.name is None && quantity == Quantity::Fan ==> reading.chip == trimmed(
                chip.directory,
            )
            &&& chip.name is None && quantity != Quantity::Fan ==> reading.chip == "unknown"@
        }),
{
    let files = chip.files->0;
    let f = |file: SensorFileView| reading_of(chip_name(chip, quantity), files, quantity, file);
    let all = kept(files, f);
    let k = kept(files.take(i), f).len() as int;
    let one = seq![chip];
    assert(one.drop_last() =~= Seq::<ChipView>::empty());
    assert(readings_of(one.drop_last(), quantity) =~= Seq::<ReadingView>::empty());
    assert(readings_of(one, quantity) =~= chip_readings(chip, quantity));
    lemma_kept_next(files, f, i);
    lemma_kept_both(files.take(i + 1), files.skip(i + 1), f);
    assert(files.take(i + 1) + files.skip(i + 1) =~= files);
    assert(all[k] == kept(files.take(i + 1), f)[k]);
    k
}

/// A speed and an alarm carry the chip, the sensor and the number of their reading.
pub proof fn law_fans_and_alarms_are_their_readings(chips: Seq<ChipView>, k: int)
    ensures
        fans_of(chips).len() == readings_of(chips, Quantity::Fan).len(),
        0 <= k < fans_of(chips).len() ==> {
            &&& fans_of(chips)[k].chip == readings_of(chips, Quantity::Fan)[k].chip
            &&& fans_of(chips)[k].sensor == readings_of(chips, Quantity::Fan)[k].sensor
            &&& fans_of(chips)[k].rpm == readings_of(chips, Quantity::Fan)[k].value
        },
        alarms_of(chips).len() == readings_of(chips, Quantity::Alarm).len(),
        0 <= k < alarms_of(chips).len() ==> {
            &&& alarms_of(chips)[k].chip == readings_of(chips, Quantity::Alarm)[k].chip
            &&& alarms_of(chips)[k].sensor == readings_of(chips, Quantity::Alarm)[k].sensor
            &&& alarms_of(chips)[k].value == readings_of(chips, Quantity::Alarm)[k].value
        },
{
    if 0 <= k < fans_of(chips).len() {
        law_readings_are_in_range(chips, Quantity::Fan, k);
    }
    if 0 <= k < alarms_of(chips).len() {
        law_readings_are_in_range(chips, Quantity::Alarm, k);
    }
}

/// Readings stand by chip, then by sensor, then by what is read, and so do fans and alarms
/// by chip and sensor.
pub proof fn law_readings_stand_by_chip_and_sensor(
    a: ReadingView,
    b: ReadingView,
    x: FanView,
    y: FanView,
    u: TemperatureAlarmView,
    v: TemperatureAlarmView,
)
    ensures
        Reading::le(a, b) <==> if a.chip != b.chip {
            text_le(a.chip, b.chip)
        } else if a.sensor != b.sensor {
            text_le(a.sensor, b.sensor)
        } else {
            text_le(a.detail, b.detail)
        },
        Fan::le(x, y) <==> if x.chip != y.chip {
            text_le(x.chip, y.chip)
        } else {
            text_le(x.sensor, y.sensor)
        },
        TemperatureAlarm::le(u, v) <==> if u.chip != v.chip {
            text_le(u.chip, v.chip)
        } else {
            text_le(u.sensor, v.sensor)
        },
{
    reveal_with_fuel(texts_le, 4);
    lemma_text_reflexive(a.detail, 0);
    lemma_text_reflexive(x.sensor, 0);
    lemma_text_reflexive(u.sensor, 0);
    assert(seq![a.chip, a.sensor, a.detail].skip(1) =~= seq![a.sensor, a.detail]);
    assert(seq![b.chip, b.sensor, b.detail].skip(1) =~= seq![b.sensor, b.detail]);
    assert(seq![a.sensor, a.detail].skip(1) =~= seq![a.detail]);
    assert(seq![b.sensor, b.detail].skip(1) =~= seq![b.detail]);
    assert(seq![x.chip, x.sensor].skip(1) =~= seq![x.sensor]);
    assert(seq![y.chip, y.sensor].skip(1) =~= seq![y.sensor]);
    assert(seq![u.chip, u.sensor].skip(1) =~= seq![u.sensor]);
    assert(seq![v.chip, v.sensor].skip(1) =~= seq![v.sensor]);
}

} // verus!
