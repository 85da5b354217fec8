//! What the kernel says of a single process.

use crate::gpu::{clients_of, read_process_gpu, DrmClient, DrmClientView};
use crate::number::{
    add_wrapped, count_or_zero, decimal, law_decimal_reads_back, lemma_decimal_is_a_word,
    mul_wrapped, parse_count, parse_u32, parse_u64, parsed_u32, parsed_u64, wrapped,
};
use crate::table::{lookup_or_zero, Table};
use crate::text::{
    begins, blank, characters, cut, find, law_a_cut_parts_a_text, law_trimming_takes_the_blanks,
    lemma_position, lemma_words_not_empty, lines, optional_text, owned, position, split_once,
    text_lines, text_words, texts, trim, trimmed, views, whitespace, words,
};
use vstd::prelude::*;
use vstd::slice::slice_subrange;

verus! {

/// The files of a process: its id, what `stat` and `io` hold where they could be
/// read, and the information on its descriptors of graphics devices.
pub struct ProcessFiles {
    pub pid: u32,
    pub stat: Option<String>,
    pub io: Option<String>,
    pub fdinfos: Vec<String>,
}

/// The view of `ProcessFiles`.
#[verifier::ext_equal]
pub struct ProcessFilesView {
    pub pid: u32,
    pub stat: Option<Seq<char>>,
    pub io: Option<Seq<char>>,
    pub fdinfos: Seq<Seq<char>>,
}

impl View for ProcessFiles {
    type V = ProcessFilesView;

    open spec fn view(&self) -> ProcessFilesView {
        ProcessFilesView {
            pid: self.pid,
            stat: optional_text(self.stat),
            io: optional_text(self.io),
            fdinfos: views(self.fdinfos@),
        }
    }
}

/// What was read of a process.
#[derive(Debug)]
pub struct ProcessReading {
    pub pid: u32,
    pub name: String,
    pub state: char,
    /// The time that the process has spent, in clock ticks.
    pub ticks: u64,
    pub rss_bytes: u64,
    pub virtual_bytes: u64,
    pub threads: u64,
    pub read_bytes: u64,
    pub write_bytes: u64,
    pub clients: Vec<DrmClient>,
}

/// The view of `ProcessReading`.
#[verifier::ext_equal]
pub struct ProcessReadingView {
    pub pid: u32,
    pub name: Seq<char>,
    pub state: char,
    pub ticks: u64,
    pub rss_bytes: u64,
    pub virtual_bytes: u64,
    pub threads: u64,
    pub read_bytes: u64,
    pub write_bytes: u64,
    pub clients: Seq<DrmClientView>,
}

impl View for ProcessReading {
    type V = ProcessReadingView;

    open spec fn view(&self) -> ProcessReadingView {
        ProcessReadingView {
            pid: self.pid,
            name: self.name@,
            state: self.state,
            ticks: self.ticks,
            rss_bytes: self.rss_bytes,
            virtual_bytes: self.virtual_bytes,
            threads: self.threads,
            read_bytes: self.read_bytes,
            write_bytes: self.write_bytes,
            clients: views(self.clients@),
        }
    }
}

/// The process that a directory of the kernel's is about, by its name.
pub fn process_id(directory: &str) -> (r: Option<u32>)
    ensures
        r == parsed_u32(directory@),
{
    let chars: Vec<char> = characters(directory);
    parse_u32(chars.as_slice())
}

/// The last position before `end` that holds `c`.
pub open spec fn last_position(s: Seq<char>, c: char, end: int) -> Option<int>
    decreases end,
{
    if end <= 0 {
        None
    } else if s[end - 1] == c {
        Some(end - 1)
    } else {
        last_position(s, c, end - 1)
    }
}

fn find_last(s: &[char], c: char) -> (r: Option<usize>)
    ensures
        match r {
            Some(i) => i < s@.len() && last_position(s@, c, s@.len() as int) == Some(i as int),
            None => last_position(s@, c, s@.len() as int) is None,
        },
{
    let mut end: usize = s.len();
    while end > 0
        invariant
            end <= s@.len(),
            last_position(s@, c, s@.len() as int) == last_position(s@, c, end as int),
        decreases end,
    {
        if s[end - 1] == c {
            return Some(end - 1);
        }
        end -= 1;
    }
    None
}

/// Whether a `stat` has the shape that the kernel gives it, as far as it has a
/// name in brackets: the last closing bracket stands behind the first opening one,
/// and a single ASCII character, a blank, parts it from what follows.
pub open spec fn well_shaped(stat: Seq<char>) -> bool {
    let open = position(stat, '(', 0);
    match last_position(stat, ')', stat.len() as int) {
        Some(close) => open < stat.len() ==> open < close && close + 1 < stat.len() && (stat[close
            + 1] as int) < 0x80,
        None => true,
    }
}

fn is_ascii(c: char) -> (r: bool)
    ensures
        r == ((c as int) < 0x80),
{
    (c as u32) < 0x80
}

/// Whether a `stat` has the shape that the kernel gives it.
pub fn is_well_shaped(stat: &str) -> (r: bool)
    ensures
        r == well_shaped(stat@),
{
    let chars: Vec<char> = characters(stat);
    let s: &[char] = chars.as_slice();
    let open: usize = find(s, '(', 0);
    match find_last(s, ')') {
        Some(close) => if open >= s.len() {
            true
        } else if open < close && close < s.len() - 1 {
            is_ascii(s[close + 1])
        } else {
            false
        },
        None => true,
    }
}

/// What a line of a process's `io` says: a key, and a number behind a colon.
pub open spec fn io_entry(line: Seq<char>) -> Option<(Seq<char>, u64)> {
    match cut(line, ':') {
        Some((key, value)) => match parsed_u64(trimmed(value)) {
            Some(n) => Some((key, n)),
            None => None,
        },
        None => None,
    }
}

/// What some lines of a process's `io` say. Of lines with one key the last counts.
pub open spec fn io_lines(lines: Seq<Seq<char>>) -> Map<Seq<char>, u64>
    decreases lines.len(),
{
    if lines.len() == 0 {
        Map::empty()
    } else {
        let before = io_lines(lines.drop_last());
        match io_entry(lines.last()) {
            Some((key, value)) => before.insert(key, value),
            None => before,
        }
    }
}

/// What a process's `io` says, where it could be read.
pub open spec fn io_of(io: Option<Seq<char>>) -> Map<Seq<char>, u64> {
    match io {
        Some(input) => io_lines(text_lines(input)),
        None => Map::empty(),
    }
}

fn parse_io(io: &Option<String>) -> (r: Table)
    ensures
        r@ == io_of(optional_text(*io)),
{
    let mut r: Table = Table::new();
    if let Some(input) = io {
        let chars: Vec<char> = characters(input.as_str());
        let all: Vec<&[char]> = lines(chars.as_slice());
        let ghost seen = texts(all@);
        let mut i: usize = 0;
        assert(seen.take(0) =~= Seq::<Seq<char>>::empty());
        while i < all.len()
            invariant
                i <= all@.len(),
                seen == texts(all@),
                r@ == io_lines(seen.take(i as int)),
            decreases all@.len() - i,
        {
            assert(seen.take(i + 1).drop_last() =~= seen.take(i as int));
            assert(seen.take(i + 1).last() == all@[i as int]@);
            if let Some((key, value)) = split_once(all[i], ':') {
                if let Some(n) = parse_u64(trim(value)) {
                    r.insert(owned(key), n);
                }
            }
            i += 1;
        }
        assert(seen.take(i as int) =~= seen);
    }
    r
}

/// What the fields behind the name say of a process. The state comes first; the
/// twelfth and the thirteenth are the ticks that it spent for itself and in the
/// kernel, without which it says nothing; the rest is as good as it is.
pub open spec fn reading_of(
    files: ProcessFilesView,
    name: Seq<char>,
    fields: Seq<Seq<char>>,
    page_size: u64,
) -> Option<ProcessReadingView> {
    if fields.len() <= 21 {
        None
    } else {
        match (parsed_u64(fields[11]), parsed_u64(fields[12])) {
            (Some(user), Some(system)) => Some(
                ProcessReadingView {
                    pid: files.pid,
                    name,
                    state: fields[0][0],
                    ticks: wrapped(user as nat + system as nat),
                    rss_bytes: wrapped(count_or_zero(fields[21]) as nat * page_size as nat),
                    virtual_bytes: count_or_zero(fields[20]),
                    threads: count_or_zero(fields[17]),
                    read_bytes: lookup_or_zero(io_of(files.io), "read_bytes"@),
                    write_bytes: lookup_or_zero(io_of(files.io), "write_bytes"@),
                    clients: clients_of(files.fdinfos),
                },
            ),
            _ => None,
        }
    }
}

/// What the files of a process say. Its name stands between the first opening and
/// the last closing bracket, and may hold brackets itself.
pub open spec fn process_of(files: ProcessFilesView, page_size: u64) -> Option<
    ProcessReadingView,
> {
    match files.stat {
        Some(stat) => {
            let open = position(stat, '(', 0);
            match last_position(stat, ')', stat.len() as int) {
                Some(close) => if open < stat.len() {
                    reading_of(
                        files,
                        stat.subrange(open + 1, close),
                        text_words(stat.skip(close + 2)),
                        page_size,
                    )
                } else {
                    None
                },
                None => None,
            }
        },
        None => None,
    }
}

/// Whether the `stat` of a process has the shape that the kernel gives it, where
/// it could be read.
pub open spec fn sound(files: ProcessFilesView) -> bool {
    match files.stat {
        Some(stat) => well_shaped(stat),
        None => true,
    }
}

/// The view of an optional reading.
pub open spec fn optional_reading(reading: Option<ProcessReading>) -> Option<ProcessReadingView> {
    match reading {
        Some(reading) => Some(reading@),
        None => None,
    }
}

/// Reads the files of a process.
pub fn read_process(files: &ProcessFiles, page_size: u64) -> (r: Option<ProcessReading>)
    requires
        sound(files@),
    ensures
        optional_reading(r) == process_of(files@, page_size),
{
    match &files.stat {
        Some(stat) => {
            let chars: Vec<char> = characters(stat.as_str());
            let s: &[char] = chars.as_slice();
            let open: usize = find(s, '(', 0);
            let close: usize = match find_last(s, ')') {
                Some(close) => close,
                None => {
                    return None;
                },
            };
            if open >= s.len() {
                return None;
            }
            let name = slice_subrange(s, open + 1, close);
            let rest = slice_subrange(s, close + 2, s.len());
            assert(rest@ =~= s@.skip(close + 2));
            let fields: Vec<&[char]> = words(rest);
            let ghost seen = texts(fields@);
            if fields.len() <= 21 {
                return None;
            }
            proof {
                lemma_words_not_empty(rest@, 0, 0);
                assert(seen[0] == fields@[0]@);
                assert(seen[11] == fields@[11]@ && seen[12] == fields@[12]@);
                assert(seen[17] == fields@[17]@ && seen[20] == fields@[20]@);
                assert(seen[21] == fields@[21]@);
            }
            match (parse_u64(fields[11]), parse_u64(fields[12])) {
                (Some(user), Some(system)) => {
                    let io: Table = parse_io(&files.io);
                    Some(
                        ProcessReading {
                            pid: files.pid,
                            name: owned(name),
                            state: fields[0][0],
                            ticks: add_wrapped(user, system),
                            rss_bytes: mul_wrapped(parse_count(fields[21]), page_size),
                            virtual_bytes: parse_count(fields[20]),
                            threads: parse_count(fields[17]),
                            read_bytes: io.get_or_zero("read_bytes"),
                            write_bytes: io.get_or_zero("write_bytes"),
                            clients: read_process_gpu(&files.fdinfos),
                        },
                    )
                },
                _ => None,
            }
        },
        None => None,
    }
}

/// The brackets of a name are found whatever brackets the name holds, as long as
/// none opens before it and none closes behind it.
pub proof fn law_a_name_is_read_whole(before: Seq<char>, name: Seq<char>, after: Seq<char>)
    requires
        forall|i: int| 0 <= i < before.len() ==> before[i] != '(',
        forall|i: int| 0 <= i < after.len() ==> after[i] != ')',
    ensures
        ({
            let stat = before.push('(') + name.push(')').push(' ') + after;
            let open = position(stat, '(', 0);
            let close = last_position(stat, ')', stat.len() as int);
            &&& close is Some
            &&& stat.subrange(open + 1, close->0) == name
            &&& stat.skip(close->0 + 2) == after
            &&& well_shaped(stat)
        }),
{
    let stat = before.push('(') + name.push(')').push(' ') + after;
    let open = before.len() as int;
    let close = open + 1 + name.len();
    assert(stat[open] == '(');
    assert(stat[close] == ')');
    assert(stat[close + 1] == ' ');
    lemma_position(stat, '(', 0);
    assert(position(stat, '(', 0) == open) by {
        let p = position(stat, '(', 0);
        if p < open {
            assert(stat[p] == before[p]);
        }
    }
    assert forall|i: int| close < i < stat.len() implies stat[i] != ')' by {
        if i > close + 1 {
            assert(stat[i] == after[i - close - 2]);
        }
    }
    lemma_last_position(stat, ')', close, stat.len() as int);
    assert(stat.subrange(open + 1, close) =~= name);
    assert(stat.skip(close + 2) =~= after);
}

proof fn lemma_last_position(s: Seq<char>, c: char, at: int, end: int)
    requires
        0 <= at < end <= s.len(),
        s[at] == c,
        forall|i: int| at < i < end ==> s[i] != c,
    ensures
        last_position(s, c, end) == Some(at),
    decreases end,
{
    if end > at + 1 {
        lemma_last_position(s, c, at, end - 1);
    }
}

/// What stands behind the name in `stat` is read field by field: the state is the first,
/// the time that the process has spent is the sum of the twelfth and the thirteenth, the
/// threads are the eighteenth, the virtual memory is the twenty-first, and the resident
/// memory so many pages as the twenty-second says.
pub proof fn law_a_process_reads_back(
    files: ProcessFilesView,
    page_size: u64,
    before: Seq<char>,
    name: Seq<char>,
    after: Seq<char>,
    user: u64,
    system: u64,
    threads: u64,
    virtual_bytes: u64,
    pages: u64,
)
    requires
        forall|i: int| 0 <= i < before.len() ==> before[i] != '(',
        forall|i: int| 0 <= i < after.len() ==> after[i] != ')',
        files.stat == Some(before.push('(') + name.push(')').push(' ') + after),
        text_words(after).len() >= 22,
        text_words(after)[11] == decimal(user as nat),
        text_words(after)[12] == decimal(system as nat),
        text_words(after)[17] == decimal(threads as nat),
        text_words(after)[20] == decimal(virtual_bytes as nat),
        text_words(after)[21] == decimal(pages as nat),
        user + system <= u64::MAX,
        pages * page_size <= u64::MAX,
    ensures
        process_of(files, page_size) matches Some(reading) && {
            &&& reading.pid == files.pid
            &&& reading.name == name
            &&& reading.state == text_words(after)[0][0]
            &&& reading.ticks == user + system
            &&& reading.threads == threads
            &&& reading.virtual_bytes == virtual_bytes
            &&& reading.rss_bytes == pages * page_size
        },
{
    law_a_name_is_read_whole(before, name, after);
    law_decimal_reads_back(user as nat);
    law_decimal_reads_back(system as nat);
    lemma_decimal_is_a_word(threads as nat);
    lemma_decimal_is_a_word(virtual_bytes as nat);
    lemma_decimal_is_a_word(pages as nat);
    let stat = before.push('(') + name.push(')').push(' ') + after;
    lemma_position(stat, '(', 0);
    assert(stat[before.len() as int] == '(');
}

/// The bytes that a process has read and written are what the last lines of its `io` say
/// that begin so, and none where it has no such lines or they cannot be read.
pub proof fn law_the_traffic_of_a_process_reads_back(
    files: ProcessFilesView,
    page_size: u64,
    io: Seq<char>,
    i: int,
    before: Seq<char>,
    n: u64,
    after: Seq<char>,
)
    requires
        process_of(files, page_size) is Some,
        files.io == Some(io),
        0 <= i < text_lines(io).len(),
        blank(before),
        blank(after),
    ensures
        text_lines(io)[i] == "read_bytes:"@ + (before + decimal(n as nat) + after) && (forall|
            j: int,
        |
            i < j < text_lines(io).len() ==> !begins(#[trigger] text_lines(io)[j], "read_bytes:"@))
            ==> process_of(files, page_size)->0.read_bytes == n,
        text_lines(io)[i] == "write_bytes:"@ + (before + decimal(n as nat) + after) && (forall|
            j: int,
        |
            i < j < text_lines(io).len() ==> !begins(
                #[trigger] text_lines(io)[j],
                "write_bytes:"@,
            )) ==> process_of(files, page_size)->0.write_bytes == n,
{
    reveal_strlit("read_bytes:");
    reveal_strlit("write_bytes:");
    reveal_strlit("read_bytes");
    reveal_strlit("write_bytes");
    assert("read_bytes:"@ =~= "read_bytes"@.push(':'));
    assert("write_bytes:"@ =~= "write_bytes"@.push(':'));
    lemma_io_line("read_bytes"@, before, n, after);
    lemma_io_line("write_bytes"@, before, n, after);
    let lines = text_lines(io);
    if lines[i] == "read_bytes:"@ + (before + decimal(n as nat) + after) && (forall|j: int|
        i < j < lines.len() ==> !begins(#[trigger] lines[j], "read_bytes:"@)) {
        lemma_last_io_line(lines, i, "read_bytes"@, n);
    }
    if lines[i] == "write_bytes:"@ + (before + decimal(n as nat) + after) && (forall|j: int|
        i < j < lines.len() ==> !begins(#[trigger] lines[j], "write_bytes:"@)) {
        lemma_last_io_line(lines, i, "write_bytes"@, n);
    }
}

/// A process whose `io` cannot be read has read and written nothing.
pub proof fn law_no_io_means_no_traffic(files: ProcessFilesView, page_size: u64)
    requires
        process_of(files, page_size) is Some,
        files.io is None,
    ensures
        process_of(files, page_size)->0.read_bytes == 0,
        process_of(files, page_size)->0.write_bytes == 0,
{
}

proof fn lemma_io_line(key: Seq<char>, before: Seq<char>, n: u64, after: Seq<char>)
    requires
        forall|i: int| 0 <= i < key.len() ==> #[trigger] key[i] != ':',
        blank(before),
        blank(after),
    ensures
        io_entry(key.push(':') + (before + decimal(n as nat) + after)) == Some((key, n)),
{
    let s = decimal(n as nat);
    lemma_decimal_is_a_word(n as nat);
    law_decimal_reads_back(n as nat);
    assert(!whitespace(s[0]) && !whitespace(s[s.len() - 1]));
    law_a_cut_parts_a_text(key, ':', before + s + after);
    law_trimming_takes_the_blanks(before, s, after);
}

proof fn lemma_last_io_line(lines: Seq<Seq<char>>, i: int, key: Seq<char>, n: u64)
    requires
        0 <= i < lines.len(),
        io_entry(lines[i]) == Some((key, n)),
        forall|j: int| i < j < lines.len() ==> !begins(#[trigger] lines[j], key.push(':')),
    ensures
        io_lines(lines).contains_key(key),
        io_lines(lines)[key] == n,
    decreases lines.len(),
{
    if i < lines.len() - 1 {
        let fewer = lines.drop_last();
        let last = lines[lines.len() - 1];
        assert forall|j: int| i < j < fewer.len() implies !begins(
            #[trigger] fewer[j],
            key.push(':'),
        ) by {
            assert(fewer[j] == lines[j]);
        }
        lemma_last_io_line(fewer, i, key, n);
        if let Some((other, _)) = cut(last, ':') {
            lemma_position(last, ':', 0);
            assert(last.take(other.len() as int + 1) =~= other.push(':'));
            assert(other != key);
        }
    }
}

/// A process of which nothing can be read, or whose fields are too few or not numbers, is
/// not there.
pub proof fn law_an_unreadable_process_is_not_there(
    files: ProcessFilesView,
    page_size: u64,
    before: Seq<char>,
    name: Seq<char>,
    after: Seq<char>,
)
    requires
        forall|i: int| 0 <= i < before.len() ==> before[i] != '(',
        forall|i: int| 0 <= i < after.len() ==> after[i] != ')',
    ensures
        files.stat is None ==> process_of(files, page_size) is None,
        files.stat == Some(before) ==> process_of(files, page_size) is None,
        files.stat == Some(before.push('(') + name.push(')').push(' ') + after) && text_words(
            after,
        ).len() < 22 ==> process_of(files, page_size) is None,
        files.stat == Some(before.push('(') + name.push(')').push(' ') + after) && text_words(
            after,
        ).len() >= 22 && (parsed_u64(text_words(after)[11]) is None || parsed_u64(
            text_words(after)[12],
        ) is None) ==> process_of(files, page_size) is None,
{
    law_a_name_is_read_whole(before, name, after);
    lemma_position(before, '(', 0);
}

} // verus!
