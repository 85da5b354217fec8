//! The health log of an NVMe device, as `smartctl` writes it.

use crate::clock::{passed_since, time_since, NANOSECONDS, Moment};
use crate::number::{
    decimal, digits_end, end_of_digits, law_decimal_reads_back, lemma_decimal_is_a_word,
    lemma_digits_end, parse_u64, parsed_u64,
};
use crate::snapshot::{NvmeSmart, NvmeSmartView};
use crate::text::{
    after_prefix, begins, blank, characters, cut, cut_at, digit, join_texts, law_a_cut_parts_a_text,
    lemma_blanks_end, lemma_occurrence, optional, optional_text, owned, referred_text, split_once,
    split_once_at, strip_prefix, trim_start, trimmed_start, views, whitespace,
};
use vstd::prelude::*;
use vstd::slice::slice_subrange;

verus! {

/// A key as it stands before its value.
pub open spec fn quoted(key: Seq<char>) -> Seq<char> {
    "\""@ + key + "\":"@
}

/// What follows the first occurrence of a key, without the blanks before it.
pub open spec fn value_behind(input: Seq<char>, key: Seq<char>) -> Option<Seq<char>> {
    match cut_at(input, quoted(key)) {
        Some((_, value)) => Some(trimmed_start(value)),
        None => None,
    }
}

/// The number behind the first occurrence of a key.
pub open spec fn number_behind(input: Seq<char>, key: Seq<char>) -> Option<u64> {
    match value_behind(input, key) {
        Some(value) => parsed_u64(value.take(digits_end(value, 0))),
        None => None,
    }
}

/// The string behind the first occurrence of a key, up to the next quotation mark.
pub open spec fn string_behind(input: Seq<char>, key: Seq<char>) -> Option<Seq<char>> {
    match value_behind(input, key) {
        Some(value) => match after_prefix(value, "\""@) {
            Some(rest) => match cut(rest, '"') {
                Some((text, _)) => Some(text),
                None => None,
            },
            None => None,
        },
        None => None,
    }
}

fn find_value<'a>(input: &'a [char], key: &str) -> (r: Option<&'a [char]>)
    ensures
        optional(r) == value_behind(input@, key@),
{
    let pattern: String = join_texts(join_texts("\"", key).as_str(), "\":");
    match split_once_at(input, pattern.as_str()) {
        Some((_, value)) => Some(trim_start(value)),
        None => None,
    }
}

fn find_number(input: &[char], key: &str) -> (r: Option<u64>)
    ensures
        r == number_behind(input@, key@),
{
    match find_value(input, key) {
        Some(value) => {
            let end: usize = end_of_digits(value, 0);
            let digits = slice_subrange(value, 0, end);
            assert(digits@ =~= value@.take(end as int));
            parse_u64(digits)
        },
        None => None,
    }
}

fn find_string(input: &[char], key: &str) -> (r: Option<String>)
    ensures
        optional_text(r) == string_behind(input@, key@),
{
    match find_value(input, key) {
        Some(value) => match strip_prefix(value, "\"") {
            Some(rest) => match split_once(rest, '"') {
                Some((text, _)) => Some(owned(text)),
                None => None,
            },
            None => None,
        },
        None => None,
    }
}

/// The number behind the first occurrence of a key.
pub fn json_u64(input: &str, key: &str) -> (r: Option<u64>)
    ensures
        r == number_behind(input@, key@),
{
    let chars: Vec<char> = characters(input);
    find_number(chars.as_slice(), key)
}

/// The string behind the first occurrence of a key.
pub fn json_string(input: &str, key: &str) -> (r: Option<String>)
    ensures
        optional_text(r) == string_behind(input@, key@),
{
    let chars: Vec<char> = characters(input);
    find_string(chars.as_slice(), key)
}

/// The number behind a key, or zero.
pub open spec fn number_or_zero(input: Seq<char>, key: Seq<char>) -> u64 {
    match number_behind(input, key) {
        Some(n) => n,
        None => 0,
    }
}

fn find_number_or_zero(input: &[char], key: &str) -> (r: u64)
    ensures
        r == number_or_zero(input@, key@),
{
    match find_number(input, key) {
        Some(n) => n,
        None => 0,
    }
}

/// The key of the health log.
pub open spec fn log_key() -> Seq<char> {
    "\"nvme_smart_health_information_log\""@
}

/// What the collector's output says of the device. Its numbers stand in the health
/// log, and without wear and spare it says nothing; its name stands before.
pub open spec fn smart_of(json: Seq<char>) -> Option<NvmeSmartView> {
    match cut_at(json, log_key()) {
        Some((_, log)) => match (
            number_behind(log, "percentage_used"@),
            number_behind(log, "available_spare"@),
        ) {
            (Some(percentage_used), Some(available_spare)) => Some(
                NvmeSmartView {
                    device: match string_behind(json, "name"@) {
                        Some(name) => name,
                        None => "nvme0"@,
                    },
                    percentage_used,
                    available_spare,
                    available_spare_threshold: number_or_zero(log, "available_spare_threshold"@),
                    critical_warning: number_or_zero(log, "critical_warning"@),
                    data_units_read: number_or_zero(log, "data_units_read"@),
                    data_units_written: number_or_zero(log, "data_units_written"@),
                    power_cycles: number_or_zero(log, "power_cycles"@),
                    power_on_hours: number_or_zero(log, "power_on_hours"@),
                    unsafe_shutdowns: number_or_zero(log, "unsafe_shutdowns"@),
                    media_errors: number_or_zero(log, "media_errors"@),
                    error_log_entries: number_or_zero(log, "num_err_log_entries"@),
                },
            ),
            _ => None,
        },
        None => None,
    }
}

/// The devices that the collector's output is about: one, or none where there is
/// no output or it says nothing.
pub open spec fn devices_of(json: Option<Seq<char>>) -> Seq<NvmeSmartView> {
    match json {
        Some(json) => match smart_of(json) {
            Some(smart) => seq![smart],
            None => Seq::empty(),
        },
        None => Seq::empty(),
    }
}

/// Reads the collector's output, where it could be read.
pub fn read_nvme_smart(json: Option<&String>) -> (r: Vec<NvmeSmart>)
    ensures
        views(r@) == devices_of(referred_text(json)),
{
    let mut r: Vec<NvmeSmart> = Vec::new();
    assert(views(r@) =~= Seq::<NvmeSmartView>::empty());
    if let Some(json) = json {
        let chars: Vec<char> = characters(json.as_str());
        let whole: &[char] = chars.as_slice();
        if let Some((_, log)) = split_once_at(whole, "\"nvme_smart_health_information_log\"") {
            if let (Some(percentage_used), Some(available_spare)) = (
                find_number(log, "percentage_used"),
                find_number(log, "available_spare"),
            ) {
                let smart = NvmeSmart {
                    device: match find_string(whole, "name") {
                        Some(name) => name,
                        None => "nvme0".to_owned(),
                    },
                    percentage_used,
                    available_spare,
                    available_spare_threshold: find_number_or_zero(
                        log,
                        "available_spare_threshold",
                    ),
                    critical_warning: find_number_or_zero(log, "critical_warning"),
                    data_units_read: find_number_or_zero(log, "data_units_read"),
                    data_units_written: find_number_or_zero(log, "data_units_written"),
                    power_cycles: find_number_or_zero(log, "power_cycles"),
                    power_on_hours: find_number_or_zero(log, "power_on_hours"),
                    unsafe_shutdowns: find_number_or_zero(log, "unsafe_shutdowns"),
                    media_errors: find_number_or_zero(log, "media_errors"),
                    error_log_entries: find_number_or_zero(log, "num_err_log_entries"),
                };
                let ghost found = smart@;
                r.push(smart);
                assert(views(r@) =~= seq![found]);
            }
        }
    }
    r
}

/// How old a health log may become before it is read again, in seconds.
pub const SMART_SECONDS: u64 = 60;

/// Whether the health log is due: it was never read, the clock went back since, or
/// so many whole seconds have passed.
pub open spec fn due(read: Option<Moment>, now: Moment) -> bool {
    match passed_since(read, now) {
        Some(passed) => passed / (NANOSECONDS as nat) >= SMART_SECONDS,
        None => true,
    }
}

/// Whether the health log is due, by the moment at which it was last read, if it was.
pub fn smart_due(read: Option<Moment>, now: Moment) -> (r: bool)
    ensures
        r == due(read, now),
{
    match time_since(read, now) {
        Some(passed) => passed / 1_000_000_000 >= SMART_SECONDS as u128,
        None => true,
    }
}

/// A number is found behind the first occurrence of its key, whatever stands before the
/// key and behind the number.
pub proof fn law_a_keyed_number_reads_back(
    before: Seq<char>,
    key: Seq<char>,
    blanks: Seq<char>,
    n: u64,
    after: Seq<char>,
)
    requires
        blank(blanks),
        after.len() > 0 ==> !digit(after[0]),
        forall|i: int|
            0 <= i < before.len() ==> !begins(
                #[trigger] (before + ("\""@ + key + "\":"@) + (blanks + decimal(n as nat)
                    + after)).skip(i),
                "\""@ + key + "\":"@,
            ),
    ensures
        number_behind(
            before + ("\""@ + key + "\":"@) + (blanks + decimal(n as nat) + after),
            key,
        ) == Some(n),
{
    let mark = quoted(key);
    let value = blanks + decimal(n as nat) + after;
    let s = before + mark + value;
    let at = before.len() as int;
    assert(s.skip(at).take(mark.len() as int) =~= mark);
    lemma_occurrence(s, mark, 0, at);
    assert(s.skip(at + mark.len()) =~= value);
    let d = decimal(n as nat);
    law_decimal_reads_back(n as nat);
    lemma_decimal_is_a_word(n as nat);
    assert forall|i: int| 0 <= i < blanks.len() implies whitespace(#[trigger] value[i]) by {
        assert(value[i] == blanks[i]);
    }
    assert(value[blanks.len() as int] == d[0]);
    lemma_blanks_end(value, 0, blanks.len() as int);
    let rest = trimmed_start(value);
    assert(rest =~= d + after);
    assert forall|i: int| 0 <= i < d.len() implies digit(#[trigger] rest[i]) by {
        assert(digit(d[i]));
    }
    if after.len() > 0 {
        assert(rest[d.len() as int] == after[0]);
    }
    lemma_digits_end(rest, 0, d.len() as int);
    assert(rest.take(d.len() as int) =~= d);
}

/// A string is found behind the first occurrence of its key, between quotation marks.
pub proof fn law_a_keyed_string_reads_back(
    before: Seq<char>,
    key: Seq<char>,
    blanks: Seq<char>,
    text: Seq<char>,
    after: Seq<char>,
)
    requires
        blank(blanks),
        forall|i: int| 0 <= i < text.len() ==> #[trigger] text[i] != '"',
        forall|i: int|
            0 <= i < before.len() ==> !begins(
                #[trigger] (before + ("\""@ + key + "\":"@) + (blanks + (seq!['"'] + (text.push('"')
                    + after)))).skip(i),
                "\""@ + key + "\":"@,
            ),
    ensures
        string_behind(
            before + ("\""@ + key + "\":"@) + (blanks + (seq!['"'] + (text.push('"') + after))),
            key,
        ) == Some(text),
{
    let mark = quoted(key);
    let string = seq!['"'] + (text.push('"') + after);
    let value = blanks + string;
    let s = before + mark + value;
    let at = before.len() as int;
    assert(s.skip(at).take(mark.len() as int) =~= mark);
    lemma_occurrence(s, mark, 0, at);
    assert(s.skip(at + mark.len()) =~= value);
    assert forall|i: int| 0 <= i < blanks.len() implies whitespace(#[trigger] value[i]) by {
        assert(value[i] == blanks[i]);
    }
    assert(value[blanks.len() as int] == '"');
    lemma_blanks_end(value, 0, blanks.len() as int);
    assert(trimmed_start(value) =~= string);
    reveal_strlit("\"");
    assert("\""@ =~= seq!['"']);
    assert(string.take(1) =~= "\""@);
    assert(string.skip(1) =~= text.push('"') + after);
    law_a_cut_parts_a_text(text, '"', after);
}

/// Each number of the health log is the one behind its key in what follows the key of the
/// log, or zero where there is none; the name is the string behind its key. Without the
/// log, the wear or the spare there is no device.
pub proof fn law_the_health_log_reads_back(before: Seq<char>, log: Seq<char>)
    requires
        forall|i: int|
            0 <= i < before.len() ==> !begins(
                #[trigger] (before + "\"nvme_smart_health_information_log\""@ + log).skip(i),
                "\"nvme_smart_health_information_log\""@,
            ),
    ensures
        ({
            let json = before + "\"nvme_smart_health_information_log\""@ + log;
            let found = devices_of(Some(json));
            let used = number_behind(log, "percentage_used"@);
            let spare = number_behind(log, "available_spare"@);
            &&& used is None || spare is None ==> found.len() == 0
            &&& used is Some && spare is Some ==> {
                let smart = found[0];
                &&& found.len() == 1
                &&& smart.percentage_used == used->0
                &&& smart.available_spare == spare->0
                &&& number_behind(log, "available_spare_threshold"@) matches Some(n)
                    ==> smart.available_spare_threshold == n
                &&& number_behind(log, "critical_warning"@) matches Some(n)
                    ==> smart.critical_warning == n
                &&& number_behind(log, "data_units_read"@) matches Some(n) ==> smart.data_units_read
                    == n
                &&& number_behind(log, "data_units_written"@) matches Some(n)
                    ==> smart.data_units_written == n
                &&& number_behind(log, "power_cycles"@) matches Some(n) ==> smart.power_cycles == n
                &&& number_behind(log, "power_on_hours"@) matches Some(n) ==> smart.power_on_hours
                    == n
                &&& number_behind(log, "unsafe_shutdowns"@) matches Some(n)
                    ==> smart.unsafe_shutdowns == n
                &&& number_behind(log, "media_errors"@) matches Some(n) ==> smart.media_errors == n
                &&& number_behind(log, "num_err_log_entries"@) matches Some(n)
                    ==> smart.error_log_entries == n
                &&& number_behind(log, "available_spare_threshold"@) is None
                    ==> smart.available_spare_threshold
                    == 0
                &&& number_behind(log, "critical_warning"@) is None ==> smart.critical_warning
                    == 0
                &&& number_behind(log, "data_units_read"@) is None ==> smart.data_units_read
                    == 0
                &&& number_behind(log, "data_units_written"@) is None ==> smart.data_units_written
                    == 0
                &&& number_behind(log, "power_cycles"@) is None ==> smart.power_cycles
                    == 0
                &&& number_behind(log, "power_on_hours"@) is None ==> smart.power_on_hours
                    == 0
                &&& number_behind(log, "unsafe_shutdowns"@) is None ==> smart.unsafe_shutdowns
                    == 0
                &&& number_behind(log, "num_err_log_entries"@) is None ==> smart.error_log_entries
                    == 0
                &&& number_behind(log, "media_errors"@) is None ==> smart.media_errors == 0
                &&& string_behind(json, "name"@) matches Some(name) ==> smart.device == name
                &&& string_behind(json, "name"@) is None ==> smart.device == "nvme0"@
            }
        }),
{
    let mark = "\"nvme_smart_health_information_log\""@;
    let json = before + mark + log;
    let at = before.len() as int;
    assert(json.skip(at).take(mark.len() as int) =~= mark);
    lemma_occurrence(json, mark, 0, at);
    assert(json.skip(at + mark.len()) =~= log);
}

} // verus!
