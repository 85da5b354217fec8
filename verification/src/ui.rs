//! The terminal view.

use crate::number::{
    decimal, decimal_text, parse_usize, parsed_usize, push_decimal, push_two_digits, two_digits,
};
use crate::order::{is_ranking, key_numbers, positions, rank, ranking};
use crate::selection::{network_bytes_of, process_network_bytes};
use crate::snapshot::{Figure, Gpu, GpuView, Process, ProcessView, Snapshot};
use crate::text::{characters, owned, referred_text, text_words, texts, views, words};
use vstd::arithmetic::div_mod::lemma_fundamental_div_mod_converse;
use vstd::prelude::*;
use vstd::slice::slice_subrange;
use vstd::string::StringExecFns;

verus! {

/// What the processes are sorted by.
#[derive(Clone, Copy, Debug, PartialEq, Eq, Structural)]
pub enum SortBy {
    Cpu,
    Memory,
    Read,
    Write,
    Network,
    Gpu,
    Pid,
}

/// What a key does: `q` and the interrupt key quit, others choose what the
/// processes are sorted by, and the rest does nothing.
pub open spec fn after_key(sort: SortBy, key: u8) -> Option<SortBy> {
    if key == 'q' as u8 || key == 3 {
        None
    } else if key == 'c' as u8 {
        Some(SortBy::Cpu)
    } else if key == 'm' as u8 {
        Some(SortBy::Memory)
    } else if key == 'r' as u8 {
        Some(SortBy::Read)
    } else if key == 'w' as u8 {
        Some(SortBy::Write)
    } else if key == 'n' as u8 {
        Some(SortBy::Network)
    } else if key == 'g' as u8 {
        Some(SortBy::Gpu)
    } else if key == 'p' as u8 {
        Some(SortBy::Pid)
    } else {
        Some(sort)
    }
}

/// What the processes are sorted by after a key was pressed, or nothing where the
/// key quits.
pub fn press(sort: SortBy, key: u8) -> (r: Option<SortBy>)
    ensures
        r == after_key(sort, key),
{
    match key {
        113 | 3 => None,
        99 => Some(SortBy::Cpu),
        109 => Some(SortBy::Memory),
        114 => Some(SortBy::Read),
        119 => Some(SortBy::Write),
        110 => Some(SortBy::Network),
        103 => Some(SortBy::Gpu),
        112 => Some(SortBy::Pid),
        _ => Some(sort),
    }
}

/// The key of a process: the larger, the higher it stands.
pub open spec fn key_of(process: ProcessView, sort: SortBy) -> int {
    match sort {
        SortBy::Cpu => process.cpu_percent.rank as int,
        SortBy::Memory => process.rss_bytes as int,
        SortBy::Read => process.read_bytes as int,
        SortBy::Write => process.write_bytes as int,
        SortBy::Network => network_bytes_of(process),
        SortBy::Gpu => process.gpu_percent.rank as int,
        SortBy::Pid => -(process.pid as int),
    }
}

/// The keys of the processes.
pub open spec fn keys_of(processes: Seq<ProcessView>, sort: SortBy) -> Seq<int> {
    Seq::new(processes.len(), |i: int| key_of(processes[i], sort))
}

/// The bytes that a process has received and sent, at most the largest number.
pub fn network_bytes(process: &Process) -> (r: u64)
    ensures
        r == network_bytes_of(process@),
{
    process_network_bytes(process)
}

fn sort_key(process: &Process, sort: SortBy) -> (r: i128)
    ensures
        r == key_of(process@, sort),
{
    match sort {
        SortBy::Cpu => process.cpu_percent.rank as i128,
        SortBy::Memory => process.rss_bytes as i128,
        SortBy::Read => process.read_bytes as i128,
        SortBy::Write => process.write_bytes as i128,
        SortBy::Network => network_bytes(process) as i128,
        SortBy::Gpu => process.gpu_percent.rank as i128,
        SortBy::Pid => -(process.pid as i128),
    }
}

/// The order in which the processes are shown: from the largest key down, and from
/// the smallest process id up.
pub fn display_order(processes: &Vec<Process>, sort: SortBy) -> (r: Vec<usize>)
    ensures
        positions(r@) == ranking(keys_of(views(processes@), sort)),
        is_ranking(keys_of(views(processes@), sort), positions(r@)),
{
    let ghost seen = views(processes@);
    let mut keys: Vec<i128> = Vec::new();
    let mut i: usize = 0;
    while i < processes.len()
        invariant
            i <= processes@.len(),
            seen == views(processes@),
            keys@.len() == i,
            forall|j: int| 0 <= j < i ==> #[trigger] keys@[j] == key_of(seen[j], sort),
        decreases processes@.len() - i,
    {
        assert(seen[i as int] == processes@[i as int]@);
        keys.push(sort_key(&processes[i], sort));
        i += 1;
    }
    assert(key_numbers(keys@) =~= keys_of(seen, sort));
    rank(&keys)
}

/// The number nearest to a fraction, and of two as near the even one.
pub open spec fn nearest(a: nat, b: nat) -> nat {
    let q = a / b;
    let r = a % b;
    if 2 * r < b || (2 * r == b && q % 2 == 0) {
        q
    } else {
        q + 1
    }
}

/// The distance of the numbers of 53 binary digits around `n`.
pub open spec fn spacing(n: nat) -> nat
    decreases n,
{
    if n < 0x20_0000_0000_0000 {
        1
    } else {
        2 * spacing(n / 2)
    }
}

/// A number with 53 binary digits: the nearest one, and of two as near the one whose
/// last digit is zero.
pub open spec fn rounded(n: nat) -> nat {
    nearest(n, spacing(n)) * spacing(n)
}

/// The unit in which an amount of bytes is shown: the largest that it fills, up to
/// the fourth.
pub open spec fn unit_of(amount: nat) -> nat {
    if amount < 0x400 {
        0
    } else if amount < 0x10_0000 {
        1
    } else if amount < 0x4000_0000 {
        2
    } else if amount < 0x100_0000_0000 {
        3
    } else {
        4
    }
}

/// The bytes in a unit.
pub open spec fn unit_bytes(unit: nat) -> nat {
    if unit == 0 {
        1
    } else if unit == 1 {
        0x400
    } else if unit == 2 {
        0x10_0000
    } else if unit == 3 {
        0x4000_0000
    } else {
        0x100_0000_0000
    }
}

/// The name of a unit.
pub open spec fn unit_name(unit: nat) -> Seq<char> {
    if unit == 0 {
        "B"@
    } else if unit == 1 {
        "KiB"@
    } else if unit == 2 {
        "MiB"@
    } else if unit == 3 {
        "GiB"@
    } else {
        "TiB"@
    }
}

/// A number of tenths with one decimal.
pub open spec fn with_decimal(tenths: nat) -> Seq<char> {
    decimal(tenths / 10) + "."@ + decimal(tenths % 10)
}

/// An amount of bytes with one decimal and its unit.
pub open spec fn bytes_of(value: u64) -> Seq<char> {
    let amount = rounded(value as nat);
    let unit = unit_of(amount);
    with_decimal(nearest(amount * 10, unit_bytes(unit))) + unit_name(unit)
}

/// An amount of at most 53 binary digits is shown from its exact value.
pub proof fn law_small_amounts_are_exact(n: nat)
    requires
        n < 0x20_0000_0000_0000,
    ensures
        rounded(n) == n,
{
    assert(spacing(n) == 1);
    assert(n / 1 == n && n % 1 == 0);
    assert(n * 1 == n);
}

fn nearest_of(a: u128, b: u128) -> (r: u128)
    requires
        0 < b < 0x100_0000_0000_0000_0000,
        a < 0x100_0000_0000_0000_0000,
    ensures
        r == nearest(a as nat, b as nat),
        r <= a / b + 1,
{
    let q: u128 = a / b;
    let r: u128 = a % b;
    assert(q <= a) by (nonlinear_arith)
        requires
            b > 0,
            q == a / b,
    ;
    if 2 * r < b || (2 * r == b && q % 2 == 0) {
        q
    } else {
        q + 1
    }
}

fn spacing_around(value: u64) -> (r: u128)
    ensures
        r == spacing(value as nat),
        1 <= r <= 0x1000,
{
    let mut left: u128 = value as u128;
    let mut step: u128 = 1;
    while left >= 0x20_0000_0000_0000
        invariant
            spacing(value as nat) == step * spacing(left as nat),
            step * left <= value,
            step == 1 || left >= 0x10_0000_0000_0000,
            1 <= step <= 0x1000,
        decreases left,
    {
        let half: u128 = left / 2;
        proof {
            let s = spacing(half as nat);
            assert((2 * step) * half <= step * left) by (nonlinear_arith)
                requires
                    half == left / 2,
            ;
            assert(step * (2 * s) == (2 * step) * s) by (nonlinear_arith);
            assert(step <= 0x800) by (nonlinear_arith)
                requires
                    step * left <= value,
                    left >= 0x20_0000_0000_0000,
                    value <= 0xffff_ffff_ffff_ffffu64,
            ;
        }
        left = half;
        step = 2 * step;
    }
    proof {
        assert(step * spacing(left as nat) == step) by (nonlinear_arith)
            requires
                spacing(left as nat) == 1,
        ;
    }
    step
}

fn round_amount(value: u64) -> (r: u128)
    ensures
        r == rounded(value as nat),
        r < 0x2_0000_0000_0000_0000,
{
    let step: u128 = spacing_around(value);
    let count: u128 = nearest_of(value as u128, step);
    proof {
        let v = value as u128;
        assert(count * step <= v + step) by (nonlinear_arith)
            requires
                count <= v / step + 1,
                step >= 1,
        ;
    }
    count * step
}

fn push_with_decimal(out: &mut String, tenths: u64)
    ensures
        final(out)@ == old(out)@ + with_decimal(tenths as nat),
{
    let ghost start = out@;
    push_decimal(out, tenths / 10);
    out.append(".");
    push_decimal(out, tenths % 10);
    assert(out@ =~= start + with_decimal(tenths as nat));
}

/// An amount of bytes with one decimal and its unit.
pub fn bytes(value: u64) -> (r: String)
    ensures
        r@ == bytes_of(value),
{
    let amount: u128 = round_amount(value);
    let (size, name): (u128, &str) = if amount < 0x400 {
        (1, "B")
    } else if amount < 0x10_0000 {
        (0x400, "KiB")
    } else if amount < 0x4000_0000 {
        (0x10_0000, "MiB")
    } else if amount < 0x100_0000_0000 {
        (0x4000_0000, "GiB")
    } else {
        (0x100_0000_0000, "TiB")
    };
    let tenths: u128 = nearest_of(amount * 10, size);
    proof {
        let a = (amount * 10) as u128;
        assert(a / size <= 0xffff_ffff_ffff) by (nonlinear_arith)
            requires
                a < 0x14_0000_0000_0000_0000,
                size == 0x100_0000_0000 || a < 10 * 0x100_0000_0000,
                size >= 1,
        ;
    }
    let mut r: String = String::new();
    push_with_decimal(&mut r, tenths as u64);
    assert(r@ =~= with_decimal(tenths as nat));
    r.append(name);
    r
}

/// A time in days, hours and minutes.
pub open spec fn duration_of(seconds: u64) -> Seq<char> {
    decimal((seconds / 86_400) as nat) + "d "@ + two_digits((seconds % 86_400 / 3_600) as nat)
        + "h "@ + two_digits((seconds % 3_600 / 60) as nat) + "m"@
}

/// A time in days, hours and minutes.
pub fn duration(seconds: u64) -> (r: String)
    ensures
        r@ == duration_of(seconds),
{
    let mut r: String = decimal_text(seconds / 86_400);
    r.append("d ");
    push_two_digits(&mut r, seconds % 86_400 / 3_600);
    r.append("h ");
    push_two_digits(&mut r, seconds % 3_600 / 60);
    r.append("m");
    r
}

/// What is shown of a time are its minutes: the hours are those of a day and the
/// minutes those of an hour, and together they are the whole minutes that passed.
pub proof fn law_a_duration_is_its_minutes(seconds: u64)
    ensures
        seconds % 86_400 / 3_600 < 24,
        seconds % 3_600 / 60 < 60,
        seconds / 86_400 * 1_440 + seconds % 86_400 / 3_600 * 60 + seconds % 3_600 / 60 == seconds
            / 60,
{
    let s = seconds as int;
    let days = s / 86_400;
    let hours = s % 86_400 / 3_600;
    let left = s % 86_400 % 3_600;
    assert(s == 3_600 * (24 * days + hours) + left);
    lemma_fundamental_div_mod_converse(s, 3_600, 24 * days + hours, left);
    let minutes = left / 60;
    assert(s == 60 * (1_440 * days + 60 * hours + minutes) + left % 60);
    lemma_fundamental_div_mod_converse(
        s,
        60,
        1_440 * days + 60 * hours + minutes,
        left % 60,
    );
}

/// A text as often as told, one after the other.
pub open spec fn repeated(text: Seq<char>, count: nat) -> Seq<char>
    decreases count,
{
    if count == 0 {
        Seq::empty()
    } else {
        repeated(text, (count - 1) as nat) + text
    }
}

fn repeat(text: &str, count: usize) -> (r: String)
    ensures
        r@ == repeated(text@, count as nat),
{
    let mut r: String = String::new();
    let mut i: usize = 0;
    while i < count
        invariant
            i <= count,
            r@ == repeated(text@, i as nat),
        decreases count - i,
    {
        r.append(text);
        i += 1;
    }
    r
}

/// A bar of `width` characters of which `filled` are filled.
pub open spec fn bar_of(filled: nat, width: nat) -> Seq<char> {
    "\x1b[32m"@ + repeated("█"@, filled) + "\x1b[2m"@ + repeated("░"@, (width - filled) as nat)
        + "\x1b[0m"@
}

/// A bar of `width` characters of which `filled` are filled.
pub fn bar(filled: usize, width: usize) -> (r: String)
    requires
        filled <= width,
    ensures
        r@ == bar_of(filled as nat, width as nat),
{
    let mut r: String = "\x1b[32m".to_owned();
    r.append(repeat("█", filled).as_str());
    r.append("\x1b[2m");
    r.append(repeat("░", width - filled).as_str());
    r.append("\x1b[0m");
    r
}

/// A text with blanks before it, so that it takes at least `width` characters.
pub open spec fn padded(text: Seq<char>, width: nat) -> Seq<char> {
    if text.len() < width {
        repeated(" "@, (width - text.len()) as nat) + text
    } else {
        text
    }
}

fn pad(text: &str, width: usize) -> (r: String)
    ensures
        r@ == padded(text@, width as nat),
{
    let length: usize = characters(text).len();
    if length < width {
        let mut r: String = repeat(" ", width - length);
        r.append(text);
        r
    } else {
        text.to_owned()
    }
}

/// The characters of a row before the name.
pub const FIXED_WIDTH: usize = 84;

/// The characters that a name gets at least.
pub const NAME_WIDTH: usize = 8;

/// The characters that a name gets at most, on a terminal of `width` columns.
pub open spec fn name_width(width: nat) -> nat {
    if width < FIXED_WIDTH + NAME_WIDTH {
        NAME_WIDTH as nat
    } else {
        (width - FIXED_WIDTH) as nat
    }
}

/// The beginning of a name, as much of it as there is room for.
pub open spec fn shortened(name: Seq<char>, width: nat) -> Seq<char> {
    if name.len() <= width {
        name
    } else {
        name.take(width as int)
    }
}

/// The row of a process.
pub open spec fn row_of(process: ProcessView, width: nat) -> Seq<char> {
    " "@ + padded(decimal(process.pid as nat), 7) + " "@ + seq![process.state] + " "@ + padded(
        process.cpu_percent.tenths,
        7,
    ) + " "@ + padded(bytes_of(process.rss_bytes), 8) + " "@ + padded(
        bytes_of(process.read_bytes),
        8,
    ) + " "@ + padded(bytes_of(process.write_bytes), 8) + " "@ + padded(
        bytes_of(process.network_receive_bytes),
        8,
    ) + " "@ + padded(bytes_of(process.network_transmit_bytes), 8) + " "@ + padded(
        process.gpu_percent.tenths,
        7,
    ) + " "@ + padded(bytes_of(process.gpu_vram_bytes), 8) + "  "@ + shortened(
        process.name,
        name_width(width),
    ) + "\n"@
}

fn push_padded(out: &mut String, text: &str, width: usize)
    ensures
        final(out)@ == old(out)@ + " "@ + padded(text@, width as nat),
{
    out.append(" ");
    out.append(pad(text, width).as_str());
}

/// The row of a process, on a terminal of `width` columns.
pub fn process_row(process: &Process, width: usize) -> (r: String)
    ensures
        r@ == row_of(process@, width as nat),
{
    let room: usize = if width < FIXED_WIDTH + NAME_WIDTH {
        NAME_WIDTH
    } else {
        width - FIXED_WIDTH
    };
    let chars: Vec<char> = characters(process.name.as_str());
    let name: String = if chars.len() <= room {
        owned(chars.as_slice())
    } else {
        let start = slice_subrange(chars.as_slice(), 0, room);
        assert(start@ =~= chars@.take(room as int));
        owned(start)
    };
    let mut r: String = " ".to_owned();
    r.append(pad(decimal_text(process.pid as u64).as_str(), 7).as_str());
    r.append(" ");
    let mut state: String = String::new();
    state.push(process.state);
    assert(state@ =~= seq![process.state]);
    r.append(state.as_str());
    push_padded(&mut r, process.cpu_percent.tenths.as_str(), 7);
    push_padded(&mut r, bytes(process.rss_bytes).as_str(), 8);
    push_padded(&mut r, bytes(process.read_bytes).as_str(), 8);
    push_padded(&mut r, bytes(process.write_bytes).as_str(), 8);
    push_padded(&mut r, bytes(process.network_receive_bytes).as_str(), 8);
    push_padded(&mut r, bytes(process.network_transmit_bytes).as_str(), 8);
    push_padded(&mut r, process.gpu_percent.tenths.as_str(), 7);
    push_padded(&mut r, bytes(process.gpu_vram_bytes).as_str(), 8);
    r.append("  ");
    r.append(name.as_str());
    r.append("\n");
    r
}

/// The load and the memory of a card.
pub open spec fn card_of(gpu: GpuView) -> Seq<char> {
    "GPU "@ + gpu.driver + " "@ + padded(gpu.busy_percent.units, 3) + "%  VRAM "@ + bytes_of(
        gpu.vram_used_bytes,
    ) + " / "@ + bytes_of(gpu.vram_total_bytes)
}

/// The loads of the cards beside each other.
pub open spec fn cards_of(gpus: Seq<GpuView>) -> Seq<char>
    decreases gpus.len(),
{
    if gpus.len() == 0 {
        Seq::empty()
    } else if gpus.len() == 1 {
        card_of(gpus[0])
    } else {
        cards_of(gpus.drop_last()) + "    "@ + card_of(gpus.last())
    }
}

/// What is shown of the cards.
pub open spec fn gpu_summary_of(gpus: Seq<GpuView>) -> Seq<char> {
    if gpus.len() == 0 {
        "GPU none detected"@
    } else {
        cards_of(gpus)
    }
}

fn card(gpu: &Gpu) -> (r: String)
    ensures
        r@ == card_of(gpu@),
{
    let mut r: String = "GPU ".to_owned();
    r.append(gpu.driver.as_str());
    push_padded(&mut r, gpu.busy_percent.units.as_str(), 3);
    r.append("%  VRAM ");
    r.append(bytes(gpu.vram_used_bytes).as_str());
    r.append(" / ");
    r.append(bytes(gpu.vram_total_bytes).as_str());
    r
}

/// What is shown of the cards.
pub fn gpu_summary(gpus: &Vec<Gpu>) -> (r: String)
    ensures
        r@ == gpu_summary_of(views(gpus@)),
{
    let ghost seen = views(gpus@);
    if gpus.len() == 0 {
        return "GPU none detected".to_owned();
    }
    assert(seen.take(1)[0] == gpus@[0]@);
    let mut r: String = card(&gpus[0]);
    let mut i: usize = 1;
    while i < gpus.len()
        invariant
            1 <= i <= gpus@.len(),
            seen == views(gpus@),
            r@ == cards_of(seen.take(i as int)),
        decreases gpus@.len() - i,
    {
        assert(seen.take(i + 1).drop_last() =~= seen.take(i as int));
        assert(seen.take(i + 1).last() == gpus@[i as int]@);
        r.append("    ");
        r.append(card(&gpus[i]).as_str());
        i += 1;
    }
    assert(seen.take(i as int) =~= seen);
    r
}

/// The columns and the rows of a terminal, as `stty` tells them: the rows first.
pub open spec fn size_of(text: Option<Seq<char>>) -> (usize, usize) {
    match text {
        Some(text) => {
            let fields = text_words(text);
            if fields.len() < 2 {
                (120, 30)
            } else {
                match (parsed_usize(fields[0]), parsed_usize(fields[1])) {
                    (Some(rows), Some(columns)) => (columns, rows),
                    _ => (120, 30),
                }
            }
        },
        None => (120, 30),
    }
}

/// The columns and the rows of a terminal, as `stty` tells them, or the usual ones.
pub fn terminal_size(text: Option<&String>) -> (r: (usize, usize))
    ensures
        r == size_of(referred_text(text)),
{
    if let Some(text) = text {
        let chars: Vec<char> = characters(text.as_str());
        let fields: Vec<&[char]> = words(chars.as_slice());
        let ghost seen = texts(fields@);
        if fields.len() >= 2 {
            assert(seen[0] == fields@[0]@ && seen[1] == fields@[1]@);
            if let (Some(rows), Some(columns)) = (parse_usize(fields[0]), parse_usize(fields[1])) {
                return (columns, rows);
            }
        }
    }
    (120, 30)
}

/// What is computed of a snapshot for its gauges.
pub struct Gauges {
    /// The characters of the CPU bar that are filled, of 24.
    pub cpu_filled: usize,
    /// The share of the memory that is used.
    pub memory_percent: Figure,
    /// The characters of the memory bar that are filled, of 24.
    pub memory_filled: usize,
    pub uptime_seconds: u64,
}

/// The width of the bars.
pub const BAR_WIDTH: usize = 24;

/// What is left of an amount.
pub open spec fn rest_of(total: u64, part: u64) -> u64 {
    if total < part {
        0
    } else {
        (total - part) as u64
    }
}

/// The memory that is used: what is not available of it.
pub fn used_memory(snapshot: &Snapshot) -> (r: u64)
    ensures
        r == rest_of(snapshot.memory_total, snapshot.memory_available),
{
    snapshot.memory_total.saturating_sub(snapshot.memory_available)
}

/// The line at the top.
pub open spec fn title_of(hostname: Seq<char>, listen: Seq<char>) -> Seq<char> {
    "\x1b[H\x1b[2J\x1b[1;36m bbtop\x1b[0m  Linux observability console"@ + "  \x1b[2m"@ + hostname
        + "  :"@ + listen + "\x1b[0m\n"@
}

/// The line of the CPU.
pub open spec fn cpu_line_of(snapshot: Snapshot, gauges: Gauges) -> Seq<char> {
    " CPU "@ + padded(snapshot.cpu_percent.tenths@, 5) + "% "@ + bar_of(
        gauges.cpu_filled as nat,
        BAR_WIDTH as nat,
    ) + "  load "@ + snapshot.load@[0].hundredths@ + " "@ + snapshot.load@[1].hundredths@ + " "@
        + snapshot.load@[2].hundredths@ + "  uptime "@ + duration_of(gauges.uptime_seconds)
        + "\n"@
}

/// The line of the memory.
pub open spec fn memory_line_of(snapshot: Snapshot, gauges: Gauges) -> Seq<char> {
    " MEM "@ + padded(gauges.memory_percent.tenths@, 5) + "% "@ + bar_of(
        gauges.memory_filled as nat,
        BAR_WIDTH as nat,
    ) + "  "@ + bytes_of(rest_of(snapshot.memory_total, snapshot.memory_available)) + " / "@
        + bytes_of(snapshot.memory_total) + "  SWAP "@ + bytes_of(
        rest_of(snapshot.swap_total, snapshot.swap_free),
    ) + "\n"@
}

/// The line of the network, the disks and the tasks.
pub open spec fn activity_line_of(snapshot: Snapshot) -> Seq<char> {
    " NET rx "@ + bytes_of(snapshot.network_receive_bytes) + "  tx "@ + bytes_of(
        snapshot.network_transmit_bytes,
    ) + "    DISK read "@ + bytes_of(snapshot.disk_read_bytes) + "  write "@ + bytes_of(
        snapshot.disk_write_bytes,
    ) + "    TASKS "@ + decimal(snapshot.processes_total as nat) + " ("@ + decimal(
        snapshot.processes_running as nat,
    ) + " running)\n"@
}

/// The lines above the processes.
pub open spec fn head_of(snapshot: Snapshot, listen: Seq<char>, gauges: Gauges) -> Seq<char> {
    title_of(snapshot.hostname@, listen) + cpu_line_of(snapshot, gauges) + memory_line_of(
        snapshot,
        gauges,
    ) + activity_line_of(snapshot) + " "@ + gpu_summary_of(views(snapshot.gpus@)) + "\n\n"@
        + "\x1b[1m     PID S    CPU%      RSS     READ    WRITE    NETRX    NETTX    GPU%     VRAM  NAME\x1b[0m\n"@
}

/// The rows of the first `count` processes of an order.
pub open spec fn rows_of(
    processes: Seq<ProcessView>,
    order: Seq<int>,
    width: nat,
    count: nat,
) -> Seq<char>
    decreases count,
{
    if count == 0 {
        Seq::empty()
    } else {
        rows_of(processes, order, width, (count - 1) as nat) + row_of(
            processes[order[count - 1]],
            width,
        )
    }
}

/// How many processes are shown on a terminal of `height` rows.
pub open spec fn shown(processes: nat, height: nat) -> nat {
    if height < 10 {
        0
    } else if processes < height - 10 {
        processes
    } else {
        (height - 10) as nat
    }
}

/// How many lines a text ends.
pub open spec fn line_feeds(s: Seq<char>) -> nat
    decreases s.len(),
{
    if s.len() == 0 {
        0
    } else {
        line_feeds(s.drop_last()) + if s.last() == '\n' {
            1nat
        } else {
            0
        }
    }
}

/// A text with line feeds behind it, so that it ends at least `lines` lines.
pub open spec fn filled_up(s: Seq<char>, lines: nat) -> Seq<char> {
    if line_feeds(s) < lines {
        s + repeated("\n"@, (lines - line_feeds(s)) as nat)
    } else {
        s
    }
}

/// A text that is filled up ends just as many lines as it should, or as many as it
/// ended already.
pub proof fn law_a_frame_fills_the_terminal(s: Seq<char>, lines: nat)
    ensures
        line_feeds(filled_up(s, lines)) == (if line_feeds(s) < lines {
            lines
        } else {
            line_feeds(s)
        }),
{
    if line_feeds(s) < lines {
        lemma_line_feeds(s, (lines - line_feeds(s)) as nat);
    }
}

proof fn lemma_line_feeds(s: Seq<char>, count: nat)
    ensures
        line_feeds(s + repeated("\n"@, count)) == line_feeds(s) + count,
    decreases count,
{
    reveal_strlit("\n");
    let whole = s + repeated("\n"@, count);
    if count == 0 {
        assert(whole =~= s);
    } else {
        lemma_line_feeds(s, (count - 1) as nat);
        assert(whole.drop_last() =~= s + repeated("\n"@, (count - 1) as nat));
        assert(whole.last() == '\n');
    }
}

/// The line at the bottom.
pub open spec fn help_line() -> Seq<char> {
    "\x1b[7m q quit │ sort: c cpu  m memory  r read  w write  n net  g gpu  p pid \x1b[0m"@
}

/// The rows of a terminal without the last one.
pub open spec fn rows_above(height: nat) -> nat {
    if height == 0 {
        0
    } else {
        (height - 1) as nat
    }
}

/// What is shown of a snapshot on a terminal.
pub open spec fn frame_of(
    snapshot: Snapshot,
    listen: Seq<char>,
    sort: SortBy,
    width: nat,
    height: nat,
    gauges: Gauges,
) -> Seq<char> {
    let processes = views(snapshot.processes@);
    let order = ranking(keys_of(processes, sort));
    filled_up(
        head_of(snapshot, listen, gauges) + rows_of(
            processes,
            order,
            width,
            shown(processes.len(), height),
        ),
        rows_above(height),
    ) + help_line()
}

fn head(snapshot: &Snapshot, listen: &str, gauges: &Gauges) -> (r: String)
    requires
        gauges.cpu_filled <= BAR_WIDTH,
        gauges.memory_filled <= BAR_WIDTH,
    ensures
        r@ == head_of(*snapshot, listen@, *gauges),
{
    let mut r: String =
        "\x1b[H\x1b[2J\x1b[1;36m bbtop\x1b[0m  Linux observability console".to_owned();
    r.append("  \x1b[2m");
    r.append(snapshot.hostname.as_str());
    r.append("  :");
    r.append(listen);
    r.append("\x1b[0m\n");
    let mut cpu: String = " CPU ".to_owned();
    cpu.append(pad(snapshot.cpu_percent.tenths.as_str(), 5).as_str());
    cpu.append("% ");
    cpu.append(bar(gauges.cpu_filled, BAR_WIDTH).as_str());
    cpu.append("  load ");
    cpu.append(snapshot.load[0].hundredths.as_str());
    cpu.append(" ");
    cpu.append(snapshot.load[1].hundredths.as_str());
    cpu.append(" ");
    cpu.append(snapshot.load[2].hundredths.as_str());
    cpu.append("  uptime ");
    cpu.append(duration(gauges.uptime_seconds).as_str());
    cpu.append("\n");
    r.append(cpu.as_str());
    let mut memory: String = " MEM ".to_owned();
    memory.append(pad(gauges.memory_percent.tenths.as_str(), 5).as_str());
    memory.append("% ");
    memory.append(bar(gauges.memory_filled, BAR_WIDTH).as_str());
    memory.append("  ");
    memory.append(bytes(used_memory(snapshot)).as_str());
    memory.append(" / ");
    memory.append(bytes(snapshot.memory_total).as_str());
    memory.append("  SWAP ");
    memory.append(bytes(snapshot.swap_total.saturating_sub(snapshot.swap_free)).as_str());
    memory.append("\n");
    r.append(memory.as_str());
    let mut activity: String = " NET rx ".to_owned();
    activity.append(bytes(snapshot.network_receive_bytes).as_str());
    activity.append("  tx ");
    activity.append(bytes(snapshot.network_transmit_bytes).as_str());
    activity.append("    DISK read ");
    activity.append(bytes(snapshot.disk_read_bytes).as_str());
    activity.append("  write ");
    activity.append(bytes(snapshot.disk_write_bytes).as_str());
    activity.append("    TASKS ");
    push_decimal(&mut activity, snapshot.processes_total as u64);
    activity.append(" (");
    push_decimal(&mut activity, snapshot.processes_running as u64);
    activity.append(" running)\n");
    r.append(activity.as_str());
    r.append(" ");
    r.append(gpu_summary(&snapshot.gpus).as_str());
    r.append("\n\n");
    r.append(
        "\x1b[1m     PID S    CPU%      RSS     READ    WRITE    NETRX    NETTX    GPU%     VRAM  NAME\x1b[0m\n",
    );
    r
}

fn count_line_feeds(text: &str) -> (r: usize)
    ensures
        r == line_feeds(text@),
{
    let chars: Vec<char> = characters(text);
    let mut r: usize = 0;
    let mut i: usize = 0;
    while i < chars.len()
        invariant
            i <= chars@.len(),
            r <= i,
            r == line_feeds(chars@.take(i as int)),
        decreases chars@.len() - i,
    {
        assert(chars@.take(i + 1).drop_last() =~= chars@.take(i as int));
        if chars[i] == '\n' {
            r += 1;
        }
        i += 1;
    }
    assert(chars@.take(i as int) =~= chars@);
    r
}

/// What is shown of a snapshot on a terminal of `width` columns and `height` rows.
pub fn draw(
    snapshot: &Snapshot,
    listen: &str,
    sort: SortBy,
    width: usize,
    height: usize,
    gauges: &Gauges,
) -> (r: String)
    requires
        gauges.cpu_filled <= BAR_WIDTH,
        gauges.memory_filled <= BAR_WIDTH,
    ensures
        r@ == frame_of(*snapshot, listen@, sort, width as nat, height as nat, *gauges),
{
    let ghost seen = views(snapshot.processes@);
    let order: Vec<usize> = display_order(&snapshot.processes, sort);
    let ghost ranks = positions(order@);
    let rows: usize = if height < 10 {
        0
    } else if snapshot.processes.len() < height - 10 {
        snapshot.processes.len()
    } else {
        height - 10
    };
    let mut lines: String = String::new();
    let mut i: usize = 0;
    while i < rows
        invariant
            i <= rows <= snapshot.processes@.len(),
            seen == views(snapshot.processes@),
            ranks == positions(order@),
            is_ranking(keys_of(seen, sort), ranks),
            lines@ == rows_of(seen, ranks, width as nat, i as nat),
        decreases rows - i,
    {
        assert(ranks[i as int] == order@[i as int]);
        lines.append(process_row(&snapshot.processes[order[i]], width).as_str());
        i += 1;
    }
    let mut r: String = head(snapshot, listen, gauges);
    r.append(lines.as_str());
    let above: usize = if height == 0 {
        0
    } else {
        height - 1
    };
    let feeds: usize = count_line_feeds(r.as_str());
    if feeds < above {
        r.append(repeat("\n", above - feeds).as_str());
    }
    r.append("\x1b[7m q quit │ sort: c cpu  m memory  r read  w write  n net  g gpu  p pid \x1b[0m");
    r
}

} // verus!
