//! Tables of words that hold real numbers: browser tabs, load averages, uptime.

use crate::list::{kept, lemma_kept_both, lemma_kept_next, lemma_kept_none};
use crate::number::{
    decimal, is_real_number, law_decimal_reads_back, lemma_decimal_is_a_word, parse_u32, parse_u64,
    parsed_u32, parsed_u64, real_number,
};
use crate::snapshot::{BrowserTab, BrowserTabView};
use crate::text::{
    blank, characters, is_whitespace, law_a_word_reads_back, law_trimming_takes_the_blanks,
    lemma_word_ends, lines, optional_text, owned, text_lines, text_words, texts, trim, trimmed,
    views, whitespace, word_end, wordlike, words,
};
use vstd::prelude::*;
use vstd::slice::slice_subrange;

verus! {

/// A text cut at every white-space character into at most `limit` fields, of which
/// the last one takes the rest.
pub open spec fn fields_of(s: Seq<char>, limit: nat) -> Seq<Seq<char>>
    decreases limit,
{
    if limit <= 1 || word_end(s, 0) >= s.len() {
        seq![s]
    } else {
        seq![s.take(word_end(s, 0))] + fields_of(s.skip(word_end(s, 0) + 1), (limit - 1) as nat)
    }
}

fn split_fields<'a>(s: &'a [char], limit: usize) -> (r: Vec<&'a [char]>)
    ensures
        texts(r@) == fields_of(s@, limit as nat),
{
    let mut r: Vec<&'a [char]> = Vec::new();
    let mut rest: &'a [char] = s;
    let mut left: usize = limit;
    assert(texts(r@) + fields_of(rest@, left as nat) =~= fields_of(s@, limit as nat));
    while left > 1
        invariant
            texts(r@) + fields_of(rest@, left as nat) == fields_of(s@, limit as nat),
        decreases left,
    {
        let mut end: usize = 0;
        while end < rest.len() && !is_whitespace(rest[end])
            invariant
                end <= rest@.len(),
                word_end(rest@, 0) == word_end(rest@, end as int),
            decreases rest@.len() - end,
        {
            end += 1;
        }
        let ghost before = texts(r@);
        if end >= rest.len() {
            r.push(rest);
            assert(texts(r@) =~= before + fields_of(rest@, left as nat));
            return r;
        }
        let field = slice_subrange(rest, 0, end);
        let next = slice_subrange(rest, end + 1, rest.len());
        assert(field@ =~= rest@.take(end as int));
        assert(next@ =~= rest@.skip(end + 1));
        r.push(field);
        assert(texts(r@) + fields_of(next@, (left - 1) as nat) =~= before + fields_of(
            rest@,
            left as nat,
        ));
        rest = next;
        left -= 1;
    }
    let ghost before = texts(r@);
    r.push(rest);
    assert(texts(r@) =~= before + fields_of(rest@, left as nat));
    r
}

/// What a line of the browser table says: a process id, the share of a core, the
/// bytes of memory, the number of documents, the site, and a title that runs to
/// the end of the line and may contain spaces.
pub open spec fn tab_of(line: Seq<char>) -> Option<BrowserTabView> {
    let fields = fields_of(line, 6);
    if fields.len() < 6 || !real_number(fields[1]) {
        None
    } else {
        match (parsed_u32(fields[0]), parsed_u64(fields[2]), parsed_u32(fields[3])) {
            (Some(pid), Some(memory_bytes), Some(windows)) => Some(
                BrowserTabView {
                    pid,
                    cpu_percent: fields[1],
                    memory_bytes,
                    windows,
                    site: fields[4],
                    title: trimmed(fields[5]),
                },
            ),
            _ => None,
        }
    }
}

spec fn optional_tab(tab: Option<BrowserTab>) -> Option<BrowserTabView> {
    match tab {
        Some(tab) => Some(tab@),
        None => None,
    }
}

fn parse_tab(line: &[char]) -> (r: Option<BrowserTab>)
    ensures
        optional_tab(r) == tab_of(line@),
{
    let fields: Vec<&[char]> = split_fields(line, 6);
    let ghost seen = texts(fields@);
    if fields.len() < 6 {
        return None;
    }
    assert(seen[0] == fields@[0]@ && seen[1] == fields@[1]@ && seen[2] == fields@[2]@);
    assert(seen[3] == fields@[3]@ && seen[4] == fields@[4]@ && seen[5] == fields@[5]@);
    if !is_real_number(fields[1]) {
        return None;
    }
    match (parse_u32(fields[0]), parse_u64(fields[2]), parse_u32(fields[3])) {
        (Some(pid), Some(memory_bytes), Some(windows)) => Some(
            BrowserTab {
                pid,
                cpu_percent: owned(fields[1]),
                memory_bytes,
                windows,
                site: owned(fields[4]),
                title: owned(trim(fields[5])),
            },
        ),
        _ => None,
    }
}

/// The tabs on some lines, in their order.
pub open spec fn tabs_on(lines: Seq<Seq<char>>) -> Seq<BrowserTabView> {
    kept(lines, |line: Seq<char>| tab_of(line))
}

/// Reads the table of browser tabs.
///
/// A browser tab has no identity the kernel can see: content processes carry no
/// origin, and one process may host several tabs. The optional `bbtop-tabs`
/// collector asks the browser itself and leaves the answer in this table.
pub fn parse_browser_tabs(input: &str) -> (r: Vec<BrowserTab>)
    ensures
        views(r@) == tabs_on(text_lines(input@)),
{
    let chars: Vec<char> = characters(input);
    let all: Vec<&[char]> = lines(chars.as_slice());
    let ghost seen = texts(all@);
    let ghost f = |line: Seq<char>| tab_of(line);
    let mut r: Vec<BrowserTab> = Vec::new();
    let mut i: usize = 0;
    proof {
        lemma_kept_none(seen, f);
        assert(views(r@) =~= Seq::<BrowserTabView>::empty());
    }
    while i < all.len()
        invariant
            i <= all@.len(),
            seen == texts(all@),
            f == |line: Seq<char>| tab_of(line),
            views(r@) == kept(seen.take(i as int), f),
        decreases all@.len() - i,
    {
        let ghost before = views(r@);
        proof {
            lemma_kept_next(seen, f, i as int);
            assert(seen[i as int] == all@[i as int]@);
        }
        if let Some(tab) = parse_tab(all[i]) {
            let ghost found = tab@;
            r.push(tab);
            assert(views(r@) =~= before.push(found));
        }
        i += 1;
    }
    r
}

/// The real numbers among the words of a text, as they are written.
pub open spec fn real_words(input: Seq<char>) -> Seq<Seq<char>> {
    kept(
        text_words(input),
        |word: Seq<char>|
            if real_number(word) {
                Some(word)
            } else {
                None
            },
    )
}

/// The load average at a position, as it is written, or zero.
pub open spec fn load_at(input: Seq<char>, n: int) -> Seq<char> {
    if n < real_words(input).len() {
        real_words(input)[n]
    } else {
        "0"@
    }
}

fn nth_word(words: &Vec<&[char]>, n: usize) -> (r: String)
    ensures
        r@ == if n < words@.len() {
            words@[n as int]@
        } else {
            "0"@
        },
{
    if n < words.len() {
        owned(words[n])
    } else {
        "0".to_owned()
    }
}

/// Reads the three load averages from the kernel's `loadavg`, as they are written.
pub fn parse_loadavg(input: &str) -> (r: [String; 3])
    ensures
        r@[0]@ == load_at(input@, 0),
        r@[1]@ == load_at(input@, 1),
        r@[2]@ == load_at(input@, 2),
{
    let chars: Vec<char> = characters(input);
    let all: Vec<&[char]> = words(chars.as_slice());
    let ghost seen = texts(all@);
    let ghost f = |word: Seq<char>|
        if real_number(word) {
            Some(word)
        } else {
            None
        };
    let mut found: Vec<&[char]> = Vec::new();
    let mut i: usize = 0;
    proof {
        lemma_kept_none(seen, f);
        assert(texts(found@) =~= Seq::<Seq<char>>::empty());
    }
    while i < all.len()
        invariant
            i <= all@.len(),
            seen == texts(all@),
            f == |word: Seq<char>|
                if real_number(word) {
                    Some(word)
                } else {
                    None
                },
            texts(found@) == kept(seen.take(i as int), f),
        decreases all@.len() - i,
    {
        let ghost before = texts(found@);
        proof {
            lemma_kept_next(seen, f, i as int);
            assert(seen[i as int] == all@[i as int]@);
        }
        if is_real_number(all[i]) {
            found.push(all[i]);
            assert(texts(found@) =~= before.push(all@[i as int]@));
        }
        i += 1;
    }
    assert(texts(found@).len() == found@.len());
    assert(forall|k: int| 0 <= k < found@.len() ==> texts(found@)[k] == #[trigger] found@[k]@);
    [nth_word(&found, 0), nth_word(&found, 1), nth_word(&found, 2)]
}

/// The first word of a text, if it is a real number.
pub open spec fn leading_number(input: Seq<char>) -> Option<Seq<char>> {
    let fields = text_words(input);
    if fields.len() > 0 && real_number(fields[0]) {
        Some(fields[0])
    } else {
        None
    }
}

/// The first word of a text, as it is written, if it is a real number.
pub fn first_number(input: &str) -> (r: Option<String>)
    ensures
        optional_text(r) == leading_number(input@),
{
    let chars: Vec<char> = characters(input);
    let fields: Vec<&[char]> = words(chars.as_slice());
    assert(texts(fields@).len() == fields@.len());
    if fields.len() > 0 {
        assert(texts(fields@)[0] == fields@[0]@);
        if is_real_number(fields[0]) {
            return Some(owned(fields[0]));
        }
    }
    None
}

/// A text is cut at its first white space, which belongs to neither part.
pub proof fn law_a_field_ends_at_white_space(field: Seq<char>, c: char, rest: Seq<char>, limit: nat)
    requires
        forall|i: int| 0 <= i < field.len() ==> !whitespace(#[trigger] field[i]),
        whitespace(c),
        limit > 1,
    ensures
        fields_of(field.push(c) + rest, limit) == seq![field] + fields_of(
            rest,
            (limit - 1) as nat,
        ),
{
    let s = field.push(c) + rest;
    lemma_word_ends(s, 0, field.len() as int);
    assert(s.take(field.len() as int) =~= field);
    assert(s.skip(field.len() as int + 1) =~= rest);
}

/// A line of the browser table reads back: the process, its share of a core, its memory,
/// its documents, the site, and the title without the blanks around it.
pub proof fn law_a_tab_line_reads_back(
    pid: u32,
    share: Seq<char>,
    memory_bytes: u64,
    windows: u32,
    site: Seq<char>,
    title: Seq<char>,
)
    requires
        real_number(share),
        wordlike(share),
        wordlike(site),
        title.len() > 0 ==> !whitespace(title[0]) && !whitespace(title.last()),
    ensures
        tab_of(
            decimal(pid as nat).push('\t') + (share.push('\t') + (decimal(memory_bytes as nat).push(
                '\t',
            ) + (decimal(windows as nat).push('\t') + (site.push('\t') + title)))),
        ) == Some(BrowserTabView { pid, cpu_percent: share, memory_bytes, windows, site, title }),
{
    let none = Seq::<char>::empty();
    let e = site.push('\t') + title;
    let d = decimal(windows as nat).push('\t') + e;
    let c = decimal(memory_bytes as nat).push('\t') + d;
    let b = share.push('\t') + c;
    lemma_decimal_is_a_word(pid as nat);
    lemma_decimal_is_a_word(memory_bytes as nat);
    lemma_decimal_is_a_word(windows as nat);
    law_decimal_reads_back(memory_bytes as nat);
    law_a_field_ends_at_white_space(decimal(pid as nat), '\t', b, 6);
    law_a_field_ends_at_white_space(share, '\t', c, 5);
    law_a_field_ends_at_white_space(decimal(memory_bytes as nat), '\t', d, 4);
    law_a_field_ends_at_white_space(decimal(windows as nat), '\t', e, 3);
    law_a_field_ends_at_white_space(site, '\t', title, 2);
    assert(none + title + none =~= title);
    if title.len() > 0 {
        law_trimming_takes_the_blanks(none, title, none);
    } else {
        assert(trimmed(title) =~= title);
    }
    let fields = fields_of(decimal(pid as nat).push('\t') + b, 6);
    assert(fields =~= seq![
        decimal(pid as nat),
        share,
        decimal(memory_bytes as nat),
        decimal(windows as nat),
        site,
        title,
    ]);
}

/// The three load averages are the first three words, where those are real numbers.
pub proof fn law_the_loads_read_back(a: Seq<char>, b: Seq<char>, c: Seq<char>, rest: Seq<char>)
    requires
        wordlike(a),
        wordlike(b),
        wordlike(c),
        real_number(a),
        real_number(b),
        real_number(c),
    ensures
        ({
            let text = a.push(' ') + (b.push(' ') + (c.push(' ') + rest));
            &&& load_at(text, 0) == a
            &&& load_at(text, 1) == b
            &&& load_at(text, 2) == c
        }),
{
    let none = Seq::<char>::empty();
    let z = c.push(' ') + rest;
    let y = b.push(' ') + z;
    let x = a.push(' ') + y;
    let after_c = seq![' '] + rest;
    let after_b = seq![' '] + z;
    let after_a = seq![' '] + y;
    law_a_word_reads_back(none, a, after_a);
    assert(none + a + after_a =~= x);
    law_a_word_reads_back(seq![' '], b, after_b);
    assert(seq![' '] + b + after_b =~= after_a);
    law_a_word_reads_back(seq![' '], c, after_c);
    assert(seq![' '] + c + after_c =~= after_b);
    let f = |word: Seq<char>|
        if real_number(word) {
            Some(word)
        } else {
            None
        };
    let more = text_words(after_c);
    assert(text_words(x) =~= seq![a, b, c] + more);
    lemma_kept_both(seq![a, b, c], more, f);
    assert(kept(seq![a, b, c], f) =~= seq![a, b, c]) by {
        let all = seq![a, b, c];
        lemma_kept_none(all, f);
        lemma_kept_next(all, f, 0);
        lemma_kept_next(all, f, 1);
        lemma_kept_next(all, f, 2);
        assert(all.take(3) =~= all);
    }
    assert(real_words(x) == kept(text_words(x), f));
}

/// A load average that is not there is zero.
pub proof fn law_a_missing_load_is_zero(text: Seq<char>, n: int)
    requires
        text_words(text).len() == 0,
        n >= 0,
    ensures
        load_at(text, n) == "0"@,
{
    let f = |word: Seq<char>|
        if real_number(word) {
            Some(word)
        } else {
            None
        };
    lemma_kept_none(text_words(text), f);
    assert(text_words(text).take(0) =~= text_words(text));
}

/// The time that the host has been up is the first word, if it is a real number.
pub proof fn law_the_uptime_reads_back(blanks: Seq<char>, seconds: Seq<char>, rest: Seq<char>)
    requires
        blank(blanks),
        wordlike(seconds),
        rest.len() > 0 ==> whitespace(rest[0]),
    ensures
        leading_number(blanks + seconds + rest) == if real_number(seconds) {
            Some(seconds)
        } else {
            None
        },
{
    law_a_word_reads_back(blanks, seconds, rest);
}

} // verus!
