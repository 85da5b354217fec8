//! Memory: what the host has of it and how large a page is.

use crate::number::{
    decimal, law_decimal_reads_back, lemma_decimal_is_a_word, mul_wrapped, parse_u64, parsed_u64,
    wrapped,
};
use crate::table::{lookup_or_zero, Table};
use crate::text::{
    after_prefix, begins, blank, characters, cut, law_a_cut_parts_a_text, law_a_word_reads_back,
    lemma_position, lines, owned, referred_text, split_once, strip_prefix, text_lines, text_words,
    texts, whitespace, words,
};
use vstd::prelude::*;

verus! {

/// The number that a text begins with, as its first word.
pub open spec fn first_count(s: Seq<char>) -> Option<u64> {
    let fields = text_words(s);
    if fields.len() > 0 {
        parsed_u64(fields[0])
    } else {
        None
    }
}

/// The number that a text begins with, as its first word.
pub fn read_first_count(s: &[char]) -> (r: Option<u64>)
    ensures
        r == first_count(s@),
{
    let fields: Vec<&[char]> = words(s);
    assert(texts(fields@).len() == fields@.len());
    if fields.len() > 0 {
        assert(texts(fields@)[0] == fields@[0]@);
        parse_u64(fields[0])
    } else {
        None
    }
}

/// What a line of the kernel's `meminfo` says: a key, and a number of kilobytes
/// behind a colon, taken as bytes.
pub open spec fn meminfo_entry(line: Seq<char>) -> Option<(Seq<char>, u64)> {
    match cut(line, ':') {
        Some((key, rest)) => match first_count(rest) {
            Some(kilobytes) => Some((key, wrapped(kilobytes as nat * 1024))),
            None => None,
        },
        None => None,
    }
}

/// What some lines of `meminfo` say. Of lines with one key the last counts.
pub open spec fn meminfo_lines(lines: Seq<Seq<char>>) -> Map<Seq<char>, u64>
    decreases lines.len(),
{
    if lines.len() == 0 {
        Map::empty()
    } else {
        let before = meminfo_lines(lines.drop_last());
        match meminfo_entry(lines.last()) {
            Some((key, value)) => before.insert(key, value),
            None => before,
        }
    }
}

/// What the kernel's `meminfo` says, in bytes.
pub open spec fn meminfo_of(input: Seq<char>) -> Map<Seq<char>, u64> {
    meminfo_lines(text_lines(input))
}

/// Reads the kernel's `meminfo`.
pub fn parse_meminfo(input: &str) -> (r: Table)
    ensures
        r@ == meminfo_of(input@),
{
    let chars: Vec<char> = characters(input);
    let all: Vec<&[char]> = lines(chars.as_slice());
    let ghost seen = texts(all@);
    let mut r: Table = Table::new();
    let mut i: usize = 0;
    assert(seen.take(0) =~= Seq::<Seq<char>>::empty());
    while i < all.len()
        invariant
            i <= all@.len(),
            seen == texts(all@),
            r@ == meminfo_lines(seen.take(i as int)),
        decreases all@.len() - i,
    {
        assert(seen.take(i + 1).drop_last() =~= seen.take(i as int));
        assert(seen.take(i + 1).last() == all@[i as int]@);
        if let Some((key, rest)) = split_once(all[i], ':') {
            if let Some(kilobytes) = read_first_count(rest) {
                r.insert(owned(key), mul_wrapped(kilobytes, 1024));
            }
        }
        i += 1;
    }
    assert(seen.take(i as int) =~= seen);
    r
}

/// A number is read where a text begins with it, whatever white space stands before it
/// and whatever follows behind white space.
pub proof fn law_a_count_reads_back(blanks: Seq<char>, n: u64, rest: Seq<char>)
    requires
        blank(blanks),
        rest.len() > 0 ==> whitespace(rest[0]),
    ensures
        first_count(blanks + decimal(n as nat) + rest) == Some(n),
{
    law_decimal_reads_back(n as nat);
    lemma_decimal_is_a_word(n as nat);
    law_a_word_reads_back(blanks, decimal(n as nat), rest);
}

/// A line of `meminfo` with a key and a number of kilobytes says so many times 1024
/// bytes under the key.
pub proof fn law_a_memory_line_reads_back(
    key: Seq<char>,
    blanks: Seq<char>,
    kilobytes: u64,
    unit: Seq<char>,
)
    requires
        forall|i: int| 0 <= i < key.len() ==> #[trigger] key[i] != ':',
        blank(blanks),
        unit.len() > 0 ==> whitespace(unit[0]),
        kilobytes * 1024 <= u64::MAX,
    ensures
        meminfo_entry(key.push(':') + (blanks + decimal(kilobytes as nat) + unit)) == Some(
            (key, (kilobytes * 1024) as u64),
        ),
{
    law_a_cut_parts_a_text(key, ':', blanks + decimal(kilobytes as nat) + unit);
    law_a_count_reads_back(blanks, kilobytes, unit);
}

/// Under a key of `meminfo` stands what the last line with that key says.
pub proof fn law_the_last_memory_line_counts(
    lines: Seq<Seq<char>>,
    i: int,
    key: Seq<char>,
    bytes: u64,
)
    requires
        0 <= i < lines.len(),
        meminfo_entry(lines[i]) == Some((key, bytes)),
        forall|j: int| i < j < lines.len() ==> !begins(#[trigger] lines[j], key.push(':')),
    ensures
        meminfo_lines(lines).contains_key(key),
        meminfo_lines(lines)[key] == bytes,
    decreases lines.len(),
{
    if i < lines.len() - 1 {
        let fewer = lines.drop_last();
        let last = lines[lines.len() - 1];
        assert forall|j: int| i < j < fewer.len() implies !begins(
            #[trigger] fewer[j],
            key.push(':'),
        ) by {
            assert(fewer[j] == lines[j]);
        }
        law_the_last_memory_line_counts(fewer, i, key, bytes);
        if let Some((other, _)) = cut(last, ':') {
            lemma_position(last, ':', 0);
            assert(last.take(other.len() as int + 1) =~= other.push(':'));
            assert(other != key);
        }
    }
}

/// Whether line `i` of a text gives a key a number of kilobytes, and no later line
/// speaks of the key.
pub open spec fn told_on(
    text: Seq<char>,
    i: int,
    key: Seq<char>,
    blanks: Seq<char>,
    kilobytes: u64,
    unit: Seq<char>,
) -> bool {
    let lines = text_lines(text);
    &&& 0 <= i < lines.len()
    &&& lines[i] == key.push(':') + (blanks + decimal(kilobytes as nat) + unit)
    &&& blank(blanks)
    &&& unit.len() > 0 ==> whitespace(unit[0])
    &&& forall|j: int| i < j < lines.len() ==> !begins(#[trigger] lines[j], key.push(':'))
}

/// Whether the last line of a text on a key gives it a number of kilobytes.
pub open spec fn tells(text: Seq<char>, key: Seq<char>, kilobytes: u64) -> bool {
    exists|i: int, blanks: Seq<char>, unit: Seq<char>|
        told_on(text, i, key, blanks, kilobytes, unit)
}

/// Whether no line of a text speaks of a key.
pub open spec fn silent_on(text: Seq<char>, key: Seq<char>) -> bool {
    forall|j: int|
        0 <= j < text_lines(text).len() ==> !begins(
            #[trigger] text_lines(text)[j],
            key.push(':'),
        )
}

/// What `meminfo` says of a key is the number of kilobytes on its last line, as bytes.
pub proof fn law_meminfo_tells_the_last_amount(text: Seq<char>, key: Seq<char>, kilobytes: u64)
    requires
        forall|i: int| 0 <= i < key.len() ==> #[trigger] key[i] != ':',
        tells(text, key, kilobytes),
        kilobytes * 1024 <= u64::MAX,
    ensures
        lookup_or_zero(meminfo_of(text), key) == kilobytes * 1024,
{
    let (i, blanks, unit) = choose|i: int, blanks: Seq<char>, unit: Seq<char>|
        told_on(text, i, key, blanks, kilobytes, unit);
    law_a_memory_line_reads_back(key, blanks, kilobytes, unit);
    law_the_last_memory_line_counts(text_lines(text), i, key, (kilobytes * 1024) as u64);
}

proof fn lemma_unspoken(lines: Seq<Seq<char>>, key: Seq<char>)
    requires
        forall|j: int| 0 <= j < lines.len() ==> !begins(#[trigger] lines[j], key.push(':')),
    ensures
        !meminfo_lines(lines).contains_key(key),
    decreases lines.len(),
{
    if lines.len() > 0 {
        let fewer = lines.drop_last();
        let last = lines[lines.len() - 1];
        assert forall|j: int| 0 <= j < fewer.len() implies !begins(
            #[trigger] fewer[j],
            key.push(':'),
        ) by {
            assert(fewer[j] == lines[j]);
        }
        lemma_unspoken(fewer, key);
        if let Some((other, _)) = cut(last, ':') {
            lemma_position(last, ':', 0);
            assert(last.take(other.len() as int + 1) =~= other.push(':'));
            assert(other != key);
        }
    }
}

/// Of a key that no line speaks of, `meminfo` says nothing, which counts as zero.
pub proof fn law_an_unspoken_key_is_zero(text: Seq<char>, key: Seq<char>)
    requires
        silent_on(text, key),
    ensures
        lookup_or_zero(meminfo_of(text), key) == 0,
{
    lemma_unspoken(text_lines(text), key);
}

/// The page size that is assumed where the kernel does not tell.
pub const DEFAULT_PAGE_SIZE: u64 = 4096;

/// The page size on a line of the kernel's `smaps`, in kilobytes.
pub open spec fn page_kilobytes(line: Seq<char>) -> Option<u64> {
    match after_prefix(line, "KernelPageSize:"@) {
        Some(rest) => first_count(rest),
        None => None,
    }
}

/// The page size on the first line, at or after `from`, that tells it.
pub open spec fn page_size_from(lines: Seq<Seq<char>>, from: int) -> u64
    decreases lines.len() - from,
{
    if from < 0 || from >= lines.len() {
        DEFAULT_PAGE_SIZE
    } else {
        match page_kilobytes(lines[from]) {
            Some(kilobytes) => wrapped(kilobytes as nat * 1024),
            None => page_size_from(lines, from + 1),
        }
    }
}

/// The page size by the kernel's `smaps`, where that can be read.
pub open spec fn page_size_of(smaps: Option<Seq<char>>) -> u64 {
    match smaps {
        Some(input) => page_size_from(text_lines(input), 0),
        None => DEFAULT_PAGE_SIZE,
    }
}

/// The page size is so many times 1024 bytes as the first line says that tells it, and
/// 4096 bytes where none does or nothing can be read.
pub proof fn law_the_page_size_reads_back(
    smaps: Seq<char>,
    i: int,
    blanks: Seq<char>,
    kilobytes: u64,
    unit: Seq<char>,
)
    requires
        0 <= i < text_lines(smaps).len(),
        text_lines(smaps)[i] == "KernelPageSize:"@ + (blanks + decimal(kilobytes as nat) + unit),
        forall|j: int|
            0 <= j < i ==> !begins(#[trigger] text_lines(smaps)[j], "KernelPageSize:"@),
        blank(blanks),
        unit.len() > 0 ==> whitespace(unit[0]),
        kilobytes * 1024 <= u64::MAX,
    ensures
        page_size_of(Some(smaps)) == kilobytes * 1024,
{
    let lines = text_lines(smaps);
    let rest = blanks + decimal(kilobytes as nat) + unit;
    law_a_count_reads_back(blanks, kilobytes, unit);
    assert(lines[i].take("KernelPageSize:"@.len() as int) =~= "KernelPageSize:"@);
    assert(lines[i].skip("KernelPageSize:"@.len() as int) =~= rest);
    lemma_page_size_from(lines, 0, i);
}

/// Where no line tells the page size, or nothing can be read, it is 4096 bytes.
pub proof fn law_the_page_size_has_a_default(smaps: Seq<char>)
    requires
        forall|j: int|
            0 <= j < text_lines(smaps).len() ==> !begins(
                #[trigger] text_lines(smaps)[j],
                "KernelPageSize:"@,
            ),
    ensures
        page_size_of(Some(smaps)) == 4096,
        page_size_of(None) == 4096,
{
    lemma_page_size_from(text_lines(smaps), 0, text_lines(smaps).len() as int);
}

proof fn lemma_page_size_from(lines: Seq<Seq<char>>, from: int, end: int)
    requires
        0 <= from <= end <= lines.len(),
        forall|j: int| from <= j < end ==> !begins(#[trigger] lines[j], "KernelPageSize:"@),
    ensures
        page_size_from(lines, from) == page_size_from(lines, end),
    decreases end - from,
{
    if from < end {
        assert(!begins(lines[from], "KernelPageSize:"@));
        lemma_page_size_from(lines, from + 1, end);
    }
}

/// The page size by the kernel's `smaps`, where that can be read.
pub fn detect_page_size(smaps: Option<&String>) -> (r: u64)
    ensures
        r == page_size_of(referred_text(smaps)),
{
    match smaps {
        Some(input) => {
            let chars: Vec<char> = characters(input.as_str());
            let all: Vec<&[char]> = lines(chars.as_slice());
            let ghost seen = texts(all@);
            let mut i: usize = 0;
            while i < all.len()
                invariant
                    i <= all@.len(),
                    seen == texts(all@),
                    seen == text_lines(input@),
                    smaps == Some(input),
                    page_size_from(seen, 0) == page_size_from(seen, i as int),
                decreases all@.len() - i,
            {
                assert(seen[i as int] == all@[i as int]@);
                if let Some(rest) = strip_prefix(all[i], "KernelPageSize:") {
                    if let Some(kilobytes) = read_first_count(rest) {
                        return mul_wrapped(kilobytes, 1024);
                    }
                }
                i += 1;
            }
            DEFAULT_PAGE_SIZE
        },
        None => DEFAULT_PAGE_SIZE,
    }
}

} // verus!
