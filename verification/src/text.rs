//! Texts as sequences of characters: lines, words, prefixes and suffixes.
//!
//! Every reader works on the characters of what it was given, so that a
//! position is a number of characters and never falls inside one.

use vstd::prelude::*;
use vstd::slice::slice_subrange;
use vstd::string::StringExecFns;

verus! {

/// `String::push` appends one character to a text.
pub assume_specification[ String::push ](text: &mut String, c: char)
    ensures
        final(text)@ == old(text)@.push(c),
;

/// The texts behind a list of slices.
pub open spec fn texts(parts: Seq<&[char]>) -> Seq<Seq<char>> {
    Seq::new(parts.len(), |i: int| parts[i]@)
}

/// The views of the items of a list.
pub open spec fn views<T: View>(items: Seq<T>) -> Seq<T::V> {
    Seq::new(items.len(), |i: int| items[i]@)
}

/// The Unicode `White_Space` property.
pub open spec fn whitespace(c: char) -> bool {
    ||| 0x9 <= c as u32 <= 0xd
    ||| c as u32 == 0x20
    ||| c as u32 == 0x85
    ||| c as u32 == 0xa0
    ||| c as u32 == 0x1680
    ||| 0x2000 <= c as u32 <= 0x200a
    ||| c as u32 == 0x2028
    ||| c as u32 == 0x2029
    ||| c as u32 == 0x202f
    ||| c as u32 == 0x205f
    ||| c as u32 == 0x3000
}

/// Whether a character is white space.
pub fn is_whitespace(c: char) -> (r: bool)
    ensures
        r == whitespace(c),
{
    let code: u32 = c as u32;
    (0x9 <= code && code <= 0xd) || code == 0x20 || code == 0x85 || code == 0xa0 || code == 0x1680
        || (0x2000 <= code && code <= 0x200a) || code == 0x2028 || code == 0x2029 || code == 0x202f
        || code == 0x205f || code == 0x3000
}

/// An ASCII decimal digit.
pub open spec fn digit(c: char) -> bool {
    '0' as u32 <= c as u32 <= '9' as u32
}

/// Whether a character is an ASCII decimal digit.
pub fn is_digit(c: char) -> (r: bool)
    ensures
        r == digit(c),
{
    let code: u32 = c as u32;
    0x30 <= code && code <= 0x39
}

/// A text of at least one character, all of them decimal digits.
pub open spec fn digits(s: Seq<char>) -> bool {
    s.len() > 0 && forall|i: int| 0 <= i < s.len() ==> digit(#[trigger] s[i])
}

/// Whether a text is a run of decimal digits.
pub fn is_digits(s: &[char]) -> (r: bool)
    ensures
        r == digits(s@),
{
    let mut i: usize = 0;
    while i < s.len()
        invariant
            i <= s@.len(),
            forall|j: int| 0 <= j < i ==> digit(#[trigger] s@[j]),
        decreases s@.len() - i,
    {
        if !is_digit(s[i]) {
            assert(!digit(s@[i as int]));
            return false;
        }
        i += 1;
    }
    s.len() > 0
}

/// The characters of a text.
pub fn characters(text: &str) -> (r: Vec<char>)
    ensures
        r@ == text@,
{
    let mut r: Vec<char> = Vec::new();
    for c in it: text.chars()
        invariant
            r@ == it.seq().take(it.index() as int),
    {
        r.push(c);
    }
    r
}

/// The text that a run of characters spells.
pub fn owned(s: &[char]) -> (r: String)
    ensures
        r@ == s@,
{
    let mut r: String = String::new();
    let mut i: usize = 0;
    while i < s.len()
        invariant
            i <= s@.len(),
            r@ == s@.take(i as int),
        decreases s@.len() - i,
    {
        r.push(s[i]);
        i += 1;
    }
    assert(s@.take(i as int) == s@);
    r
}

/// Two texts one after the other.
pub fn join_texts(a: &str, b: &str) -> (r: String)
    ensures
        r@ == a@ + b@,
{
    let mut r: String = a.to_owned();
    r.append(b);
    r
}

/// Whether `s` begins with `prefix`.
pub open spec fn begins(s: Seq<char>, prefix: Seq<char>) -> bool {
    prefix.len() <= s.len() && s.take(prefix.len() as int) == prefix
}

/// Whether `s` ends in `suffix`.
pub open spec fn ends(s: Seq<char>, suffix: Seq<char>) -> bool {
    suffix.len() <= s.len() && s.skip(s.len() - suffix.len()) == suffix
}

/// What follows `prefix` in `s`.
pub open spec fn after_prefix(s: Seq<char>, prefix: Seq<char>) -> Option<Seq<char>> {
    if begins(s, prefix) {
        Some(s.skip(prefix.len() as int))
    } else {
        None
    }
}

/// What precedes `suffix` in `s`.
pub open spec fn before_suffix(s: Seq<char>, suffix: Seq<char>) -> Option<Seq<char>> {
    if ends(s, suffix) {
        Some(s.take(s.len() - suffix.len()))
    } else {
        None
    }
}

/// The text behind an optional slice.
pub open spec fn optional(part: Option<&[char]>) -> Option<Seq<char>> {
    match part {
        Some(part) => Some(part@),
        None => None,
    }
}

/// The text behind an optional string.
pub open spec fn optional_text(part: Option<String>) -> Option<Seq<char>> {
    match part {
        Some(part) => Some(part@),
        None => None,
    }
}

/// The text behind an optional reference to a string.
pub open spec fn referred_text(part: Option<&String>) -> Option<Seq<char>> {
    match part {
        Some(part) => Some(part@),
        None => None,
    }
}

/// Whether the characters of `s` from `at` on begin with `pattern`.
pub fn matches_at(s: &[char], at: usize, pattern: &str) -> (r: bool)
    requires
        at <= s@.len(),
    ensures
        r == begins(s@.skip(at as int), pattern@),
{
    let p: Vec<char> = characters(pattern);
    let length: usize = s.len();
    if p.len() > length - at {
        return false;
    }
    let mut i: usize = 0;
    while i < p.len()
        invariant
            p@ == pattern@,
            i <= p@.len(),
            length == s@.len(),
            at + p@.len() <= length,
            forall|j: int| 0 <= j < i ==> #[trigger] p@[j] == s@[at + j],
        decreases p@.len() - i,
    {
        if p[i] != s[at + i] {
            assert(s@.skip(at as int).take(p@.len() as int)[i as int] == s@[at + i]);
            return false;
        }
        i += 1;
    }
    assert(s@.skip(at as int).take(p@.len() as int) =~= p@);
    true
}

/// Whether `s` begins with `prefix`.
pub fn starts_with(s: &[char], prefix: &str) -> (r: bool)
    ensures
        r == begins(s@, prefix@),
{
    assert(s@.skip(0) =~= s@);
    matches_at(s, 0, prefix)
}

/// Whether `s` spells `other`.
pub fn equals(s: &[char], other: &str) -> (r: bool)
    ensures
        r == (s@ == other@),
{
    let r: bool = starts_with(s, other);
    if r {
        let length: usize = characters(other).len();
        if length == s.len() {
            assert(s@.take(s@.len() as int) =~= s@);
        }
        length == s.len()
    } else {
        assert(s@ == other@ ==> s@.take(s@.len() as int) =~= s@);
        false
    }
}

/// What follows `prefix` in `s`.
pub fn strip_prefix<'a>(s: &'a [char], prefix: &str) -> (r: Option<&'a [char]>)
    ensures
        optional(r) == after_prefix(s@, prefix@),
{
    if starts_with(s, prefix) {
        let length: usize = characters(prefix).len();
        let rest = slice_subrange(s, length, s.len());
        assert(rest@ =~= s@.skip(length as int));
        Some(rest)
    } else {
        None
    }
}

/// What precedes `suffix` in `s`.
pub fn strip_suffix<'a>(s: &'a [char], suffix: &str) -> (r: Option<&'a [char]>)
    ensures
        optional(r) == before_suffix(s@, suffix@),
{
    let length: usize = characters(suffix).len();
    if length > s.len() {
        return None;
    }
    let at: usize = s.len() - length;
    assert(s@.skip(at as int).take(length as int) =~= s@.skip(at as int));
    if matches_at(s, at, suffix) {
        let rest = slice_subrange(s, 0, at);
        assert(rest@ =~= s@.take(at as int));
        Some(rest)
    } else {
        None
    }
}

/// Whether a name is among some names.
pub open spec fn named(names: Seq<String>, name: Seq<char>) -> bool {
    exists|k: int| 0 <= k < names.len() && (#[trigger] names[k])@ == name
}

/// Whether a name is among some names.
pub fn is_named(names: &Vec<String>, name: &str) -> (r: bool)
    ensures
        r == named(names@, name@),
{
    let mut k: usize = 0;
    while k < names.len()
        invariant
            k <= names@.len(),
            forall|j: int| 0 <= j < k ==> (#[trigger] names@[j])@ != name@,
        decreases names@.len() - k,
    {
        if equals(characters(names[k].as_str()).as_slice(), name) {
            return true;
        }
        k += 1;
    }
    false
}

/// The first position at or after `from` that holds `c`, or the length.
pub open spec fn position(s: Seq<char>, c: char, from: int) -> int
    decreases s.len() - from,
{
    if from >= s.len() {
        s.len() as int
    } else if s[from] == c {
        from
    } else {
        position(s, c, from + 1)
    }
}

/// A position lies in the text, holds the character, and is the first to do so.
pub proof fn lemma_position(s: Seq<char>, c: char, from: int)
    requires
        0 <= from <= s.len(),
    ensures
        from <= position(s, c, from) <= s.len(),
        position(s, c, from) < s.len() ==> s[position(s, c, from)] == c,
        forall|j: int| from <= j < position(s, c, from) ==> s[j] != c,
    decreases s.len() - from,
{
    if from < s.len() && s[from] != c {
        lemma_position(s, c, from + 1);
    }
}

/// The first position at or after `from` that holds `c`, or the length.
pub fn find(s: &[char], c: char, from: usize) -> (r: usize)
    requires
        from <= s@.len(),
    ensures
        r == position(s@, c, from as int),
        from <= r <= s@.len(),
{
    let mut i: usize = from;
    while i < s.len()
        invariant
            from <= i <= s@.len(),
            position(s@, c, from as int) == position(s@, c, i as int),
        decreases s@.len() - i,
    {
        if s[i] == c {
            return i;
        }
        i += 1;
    }
    i
}

/// A text cut at the first `c` in it, which belongs to neither half.
pub open spec fn cut(s: Seq<char>, c: char) -> Option<(Seq<char>, Seq<char>)> {
    let i = position(s, c, 0);
    if i < s.len() {
        Some((s.take(i), s.skip(i + 1)))
    } else {
        None
    }
}

/// The texts behind an optional pair of slices.
pub open spec fn optional_pair(parts: Option<(&[char], &[char])>) -> Option<
    (Seq<char>, Seq<char>),
> {
    match parts {
        Some((a, b)) => Some((a@, b@)),
        None => None,
    }
}

/// Cuts a text at the first `c` in it.
pub fn split_once<'a>(s: &'a [char], c: char) -> (r: Option<(&'a [char], &'a [char])>)
    ensures
        optional_pair(r) == cut(s@, c),
{
    let i: usize = find(s, c, 0);
    if i < s.len() {
        let a = slice_subrange(s, 0, i);
        let b = slice_subrange(s, i + 1, s.len());
        assert(a@ =~= s@.take(i as int));
        assert(b@ =~= s@.skip(i + 1));
        Some((a, b))
    } else {
        None
    }
}

/// The first position at or after `from` at which `pattern` stands in `s`.
pub open spec fn occurrence(s: Seq<char>, pattern: Seq<char>, from: int) -> Option<int>
    decreases s.len() + 1 - from,
{
    if from < 0 || from + pattern.len() > s.len() {
        None
    } else if begins(s.skip(from), pattern) {
        Some(from)
    } else {
        occurrence(s, pattern, from + 1)
    }
}

/// A text cut at the first `pattern` in it, which belongs to neither half.
pub open spec fn cut_at(s: Seq<char>, pattern: Seq<char>) -> Option<(Seq<char>, Seq<char>)> {
    match occurrence(s, pattern, 0) {
        Some(i) => Some((s.take(i), s.skip(i + pattern.len()))),
        None => None,
    }
}

/// A pattern is found where it stands, if it does not stand before.
pub proof fn lemma_occurrence(s: Seq<char>, pattern: Seq<char>, from: int, at: int)
    requires
        0 <= from <= at,
        at + pattern.len() <= s.len(),
        begins(s.skip(at), pattern),
        forall|i: int| from <= i < at ==> !begins(#[trigger] s.skip(i), pattern),
    ensures
        occurrence(s, pattern, from) == Some(at),
    decreases at - from,
{
    if from < at {
        assert(!begins(s.skip(from), pattern));
        lemma_occurrence(s, pattern, from + 1, at);
    }
}

/// Cuts a text at the first `pattern` in it.
pub fn split_once_at<'a>(s: &'a [char], pattern: &str) -> (r: Option<(&'a [char], &'a [char])>)
    ensures
        optional_pair(r) == cut_at(s@, pattern@),
{
    let length: usize = characters(pattern).len();
    if length > s.len() {
        return None;
    }
    let total: usize = s.len();
    let last: usize = total - length;
    let mut i: usize = 0;
    loop
        invariant
            length == pattern@.len(),
            i <= last,
            last + length == total,
            total == s@.len(),
            occurrence(s@, pattern@, 0) == occurrence(s@, pattern@, i as int),
        decreases last - i,
    {
        if matches_at(s, i, pattern) {
            let a = slice_subrange(s, 0, i);
            let b = slice_subrange(s, i + length, total);
            assert(a@ =~= s@.take(i as int));
            assert(b@ =~= s@.skip(i + length));
            return Some((a, b));
        }
        if i == last {
            assert(occurrence(s@, pattern@, i + 1) is None);
            return None;
        }
        i += 1;
    }
}

/// A line without the carriage return before its line feed.
pub open spec fn without_return(s: Seq<char>) -> Seq<char> {
    if s.len() > 0 && s.last() == '\r' {
        s.drop_last()
    } else {
        s
    }
}

/// The lines of `s` from `start` on. A line ends at a line feed, or at a
/// carriage return and a line feed; the last one may go without.
pub open spec fn lines_from(s: Seq<char>, start: int) -> Seq<Seq<char>>
    decreases s.len() - start,
{
    if start < 0 || start >= s.len() {
        Seq::empty()
    } else {
        let end = position(s, '\n', start);
        proof {
            lemma_position(s, '\n', start);
        }
        if end >= s.len() {
            seq![s.subrange(start, s.len() as int)]
        } else {
            seq![without_return(s.subrange(start, end))] + lines_from(s, end + 1)
        }
    }
}

/// The lines of a text.
pub open spec fn text_lines(s: Seq<char>) -> Seq<Seq<char>> {
    lines_from(s, 0)
}

/// The lines of a text.
pub fn lines<'a>(s: &'a [char]) -> (r: Vec<&'a [char]>)
    ensures
        texts(r@) == text_lines(s@),
{
    let mut r: Vec<&'a [char]> = Vec::new();
    let mut start: usize = 0;
    assert(texts(r@) + lines_from(s@, 0) =~= text_lines(s@));
    while start < s.len()
        invariant
            start <= s@.len(),
            texts(r@) + lines_from(s@, start as int) == text_lines(s@),
        decreases s@.len() - start,
    {
        let end: usize = find(s, '\n', start);
        let ghost before = texts(r@);
        if end >= s.len() {
            let line = slice_subrange(s, start, s.len());
            r.push(line);
            assert(texts(r@) =~= before + lines_from(s@, start as int));
            return r;
        }
        let mut stop: usize = end;
        if end > start && s[end - 1] == '\r' {
            stop = end - 1;
        }
        let line = slice_subrange(s, start, stop);
        assert(line@ =~= without_return(s@.subrange(start as int, end as int)));
        r.push(line);
        assert(texts(r@) + lines_from(s@, end + 1) =~= before + lines_from(s@, start as int));
        start = end + 1;
    }
    assert(texts(r@) =~= texts(r@) + lines_from(s@, start as int));
    r
}

/// Whether a text is made of whole lines, each with its line feed.
pub open spec fn complete(s: Seq<char>) -> bool {
    s.len() == 0 || s.last() == '\n'
}

/// Whether a text can stand on one line: it holds no line feed, and no carriage
/// return at its end.
pub open spec fn one_line(s: Seq<char>) -> bool {
    (forall|i: int| 0 <= i < s.len() ==> #[trigger] s[i] != '\n') && (s.len() > 0 ==> s.last()
        != '\r')
}

proof fn lemma_lines_behind(a: Seq<char>, b: Seq<char>, at: int)
    requires
        0 <= at <= b.len(),
    ensures
        lines_from(a + b, a.len() + at) == lines_from(b, at),
    decreases b.len() - at,
{
    let s = a + b;
    if at < b.len() {
        lemma_position(s, '\n', a.len() + at);
        lemma_position(b, '\n', at);
        let p = position(s, '\n', a.len() + at);
        let q = position(b, '\n', at);
        if p < s.len() {
            assert(s[p] == b[p - a.len()]);
        }
        if q < b.len() {
            assert(b[q] == s[a.len() + q]);
        }
        assert(p == a.len() + q) by {
            if p < a.len() + q {
                assert(b[p - a.len()] == '\n');
            } else if p > a.len() + q {
                assert(s[a.len() + q] == '\n');
            }
        }
        if q < b.len() {
            lemma_lines_behind(a, b, q + 1);
            assert(s.subrange(a.len() + at, p) =~= b.subrange(at, q));
        } else {
            assert(s.subrange(a.len() + at, s.len() as int) =~= b.subrange(at, b.len() as int));
        }
    }
}

proof fn lemma_lines_before(a: Seq<char>, b: Seq<char>, at: int)
    requires
        complete(a),
        0 <= at <= a.len(),
    ensures
        lines_from(a + b, at) == lines_from(a, at) + lines_from(b, 0),
    decreases a.len() - at,
{
    let s = a + b;
    if at == a.len() {
        lemma_lines_behind(a, b, 0);
        assert(lines_from(a, at) + lines_from(b, 0) =~= lines_from(b, 0));
    } else {
        lemma_position(s, '\n', at);
        lemma_position(a, '\n', at);
        let p = position(s, '\n', at);
        let q = position(a, '\n', at);
        assert(a[a.len() - 1] == '\n');
        assert(q < a.len());
        assert(a[q] == s[q]);
        assert(p == q) by {
            if p < q {
                assert(s[p] == a[p]);
            } else if p > q {
                assert(s[q] == '\n');
            }
        }
        lemma_lines_before(a, b, q + 1);
        assert(s.subrange(at, q) =~= a.subrange(at, q));
        let first = seq![without_return(a.subrange(at, q))];
        assert(first + (lines_from(a, q + 1) + lines_from(b, 0)) =~= first + lines_from(a, q + 1)
            + lines_from(b, 0));
    }
}

/// The lines of whole lines and what follows are the lines of both.
pub proof fn law_lines_of_both(a: Seq<char>, b: Seq<char>)
    requires
        complete(a),
    ensures
        text_lines(a + b) == text_lines(a) + text_lines(b),
{
    lemma_lines_before(a, b, 0);
}

/// A line that is ended by a line feed reads back as it was.
pub proof fn law_a_line_reads_back(line: Seq<char>)
    requires
        one_line(line),
    ensures
        text_lines(line.push('\n')) == seq![line],
{
    let s = line.push('\n');
    lemma_position(s, '\n', 0);
    let p = position(s, '\n', 0);
    assert(s[line.len() as int] == '\n');
    if p < line.len() {
        assert(s[p] == line[p]);
    }
    assert(s.subrange(0, p) =~= line);
    assert(lines_from(s, p + 1) =~= Seq::<Seq<char>>::empty());
    assert(text_lines(s) =~= seq![line]);
}

/// A line behind whole lines is the last of the lines.
pub proof fn law_one_line_more(text: Seq<char>, line: Seq<char>)
    requires
        complete(text),
        one_line(line),
    ensures
        complete(text + line.push('\n')),
        text_lines(text + line.push('\n')) == text_lines(text).push(line),
{
    law_lines_of_both(text, line.push('\n'));
    law_a_line_reads_back(line);
    assert(text_lines(text) + seq![line] =~= text_lines(text).push(line));
}

/// The end of the word that begins at `at`.
pub open spec fn word_end(s: Seq<char>, at: int) -> int
    decreases s.len() - at,
{
    if at >= s.len() || whitespace(s[at]) {
        at
    } else {
        word_end(s, at + 1)
    }
}

/// A word reaches to white space or to the end of the text, and holds none.
pub proof fn lemma_word_end(s: Seq<char>, at: int)
    requires
        0 <= at <= s.len(),
    ensures
        at <= word_end(s, at) <= s.len(),
        word_end(s, at) < s.len() ==> whitespace(s[word_end(s, at)]),
        forall|j: int| at <= j < word_end(s, at) ==> !whitespace(s[j]),
    decreases s.len() - at,
{
    if at < s.len() && !whitespace(s[at]) {
        lemma_word_end(s, at + 1);
    }
}

/// The words of `s` from `start` on: the longest runs without white space.
pub open spec fn words_from(s: Seq<char>, start: int) -> Seq<Seq<char>>
    decreases s.len() - start,
{
    if start < 0 || start >= s.len() {
        Seq::empty()
    } else if whitespace(s[start]) {
        words_from(s, start + 1)
    } else {
        let end = word_end(s, start);
        proof {
            lemma_word_end(s, start + 1);
        }
        seq![s.subrange(start, end)] + words_from(s, end)
    }
}

/// The words of a text.
pub open spec fn text_words(s: Seq<char>) -> Seq<Seq<char>> {
    words_from(s, 0)
}

/// The words of a text.
pub fn words<'a>(s: &'a [char]) -> (r: Vec<&'a [char]>)
    ensures
        texts(r@) == text_words(s@),
{
    let mut r: Vec<&'a [char]> = Vec::new();
    let mut start: usize = 0;
    assert(texts(r@) + words_from(s@, 0) =~= text_words(s@));
    while start < s.len()
        invariant
            start <= s@.len(),
            texts(r@) + words_from(s@, start as int) == text_words(s@),
        decreases s@.len() - start,
    {
        if is_whitespace(s[start]) {
            start += 1;
        } else {
            let mut end: usize = start + 1;
            while end < s.len() && !is_whitespace(s[end])
                invariant
                    start < end <= s@.len(),
                    word_end(s@, start as int) == word_end(s@, end as int),
                decreases s@.len() - end,
            {
                end += 1;
            }
            let ghost before = texts(r@);
            let word = slice_subrange(s, start, end);
            r.push(word);
            assert(texts(r@) + words_from(s@, end as int) =~= before + words_from(
                s@,
                start as int,
            ));
            start = end;
        }
    }
    assert(texts(r@) =~= texts(r@) + words_from(s@, start as int));
    r
}

/// The words of a text are not empty.
pub proof fn lemma_words_not_empty(s: Seq<char>, start: int, k: int)
    requires
        0 <= start <= s.len(),
        0 <= k < words_from(s, start).len(),
    ensures
        words_from(s, start)[k].len() > 0,
    decreases s.len() - start,
{
    if start < s.len() {
        if whitespace(s[start]) {
            lemma_words_not_empty(s, start + 1, k);
        } else {
            let end = word_end(s, start);
            lemma_word_end(s, start + 1);
            if k > 0 {
                lemma_words_not_empty(s, end, k - 1);
            }
        }
    }
}

/// Whether a text holds nothing but white space.
pub open spec fn blank(s: Seq<char>) -> bool {
    forall|i: int| 0 <= i < s.len() ==> whitespace(#[trigger] s[i])
}

/// Whether a text is a word: it holds something, and no white space.
pub open spec fn wordlike(s: Seq<char>) -> bool {
    s.len() > 0 && forall|i: int| 0 <= i < s.len() ==> !whitespace(#[trigger] s[i])
}

proof fn lemma_words_behind(a: Seq<char>, b: Seq<char>, at: int)
    requires
        0 <= at <= b.len(),
    ensures
        words_from(a + b, a.len() + at) == words_from(b, at),
    decreases b.len() - at,
{
    let s = a + b;
    if at < b.len() {
        assert(s[a.len() + at] == b[at]);
        if whitespace(b[at]) {
            lemma_words_behind(a, b, at + 1);
        } else {
            lemma_word_end_behind(a, b, at);
            lemma_word_end(b, at + 1);
            lemma_words_behind(a, b, word_end(b, at));
            assert(s.subrange(a.len() + at, a.len() + word_end(b, at)) =~= b.subrange(
                at,
                word_end(b, at),
            ));
        }
    }
}

proof fn lemma_word_end_behind(a: Seq<char>, b: Seq<char>, at: int)
    requires
        0 <= at <= b.len(),
    ensures
        word_end(a + b, a.len() + at) == a.len() + word_end(b, at),
    decreases b.len() - at,
{
    if at < b.len() {
        assert((a + b)[a.len() + at] == b[at]);
        if !whitespace(b[at]) {
            lemma_word_end_behind(a, b, at + 1);
        }
    }
}

/// White space before words adds none.
pub proof fn lemma_blank_words(s: Seq<char>, at: int, end: int)
    requires
        0 <= at <= end <= s.len(),
        forall|i: int| at <= i < end ==> whitespace(#[trigger] s[i]),
    ensures
        words_from(s, at) == words_from(s, end),
    decreases end - at,
{
    if at < end {
        lemma_blank_words(s, at + 1, end);
    }
}

/// A word ends where the first white space behind it stands.
pub proof fn lemma_word_ends(s: Seq<char>, at: int, end: int)
    requires
        0 <= at <= end <= s.len(),
        forall|i: int| at <= i < end ==> !whitespace(#[trigger] s[i]),
        end < s.len() ==> whitespace(s[end]),
    ensures
        word_end(s, at) == end,
    decreases end - at,
{
    if at < end {
        lemma_word_ends(s, at + 1, end);
    }
}

/// A word reads back as it was, whatever white space stands before it, and what follows
/// behind white space is read as if it stood alone.
pub proof fn law_a_word_reads_back(blanks: Seq<char>, word: Seq<char>, rest: Seq<char>)
    requires
        blank(blanks),
        wordlike(word),
        rest.len() > 0 ==> whitespace(rest[0]),
    ensures
        text_words(blanks + word + rest) == seq![word] + text_words(rest),
{
    let s = blanks + word + rest;
    let at = blanks.len() as int;
    let end = at + word.len();
    assert forall|i: int| 0 <= i < at implies whitespace(#[trigger] s[i]) by {
        assert(s[i] == blanks[i]);
    }
    assert forall|i: int| at <= i < end implies !whitespace(#[trigger] s[i]) by {
        assert(s[i] == word[i - at]);
    }
    if end < s.len() {
        assert(s[end] == rest[0]);
    }
    lemma_blank_words(s, 0, at);
    lemma_word_ends(s, at, end);
    assert(!whitespace(s[at]));
    assert(s.subrange(at, end) =~= word);
    assert(s =~= (blanks + word) + rest);
    lemma_words_behind(blanks + word, rest, 0);
}

proof fn lemma_words_before(a: Seq<char>, b: Seq<char>, at: int)
    requires
        0 <= at <= a.len(),
        b.len() > 0 ==> whitespace(b[0]),
    ensures
        words_from(a + b, at) == words_from(a, at) + words_from(b, 0),
    decreases a.len() - at,
{
    let s = a + b;
    if at == a.len() {
        lemma_words_behind(a, b, 0);
        assert(words_from(a, at) + words_from(b, 0) =~= words_from(b, 0));
    } else {
        assert(s[at] == a[at]);
        if whitespace(a[at]) {
            lemma_words_before(a, b, at + 1);
        } else {
            lemma_word_end(a, at + 1);
            let end = word_end(a, at);
            assert forall|i: int| at <= i < end implies !whitespace(#[trigger] s[i]) by {
                assert(s[i] == a[i]);
            }
            if end < a.len() {
                assert(s[end] == a[end]);
            } else if b.len() > 0 {
                assert(s[end] == b[0]);
            }
            lemma_word_ends(s, at, end);
            lemma_words_before(a, b, end);
            assert(s.subrange(at, end) =~= a.subrange(at, end));
            let first = seq![a.subrange(at, end)];
            assert(first + (words_from(a, end) + words_from(b, 0)) =~= first + words_from(a, end)
                + words_from(b, 0));
        }
    }
}

/// The words of two texts are the words of each, where white space parts them.
pub proof fn law_words_of_both(a: Seq<char>, b: Seq<char>)
    requires
        b.len() > 0 ==> whitespace(b[0]),
    ensures
        text_words(a + b) == text_words(a) + text_words(b),
{
    lemma_words_before(a, b, 0);
}

/// White space holds no words.
pub proof fn law_white_space_holds_no_words(blanks: Seq<char>)
    requires
        blank(blanks),
    ensures
        text_words(blanks) == Seq::<Seq<char>>::empty(),
{
    lemma_blank_words(blanks, 0, blanks.len() as int);
}

/// Some words with a blank before each.
pub open spec fn spaced(words: Seq<Seq<char>>) -> Seq<char>
    decreases words.len(),
{
    if words.len() == 0 {
        Seq::empty()
    } else {
        seq![' '] + words[0] + spaced(words.skip(1))
    }
}

/// Words that are written with blanks between them read back as they were.
pub proof fn law_words_read_back(words: Seq<Seq<char>>)
    requires
        forall|i: int| 0 <= i < words.len() ==> wordlike(#[trigger] words[i]),
    ensures
        text_words(spaced(words)) == words,
    decreases words.len(),
{
    if words.len() == 0 {
        law_white_space_holds_no_words(Seq::empty());
    } else {
        let rest = words.skip(1);
        assert forall|i: int| 0 <= i < rest.len() implies wordlike(#[trigger] rest[i]) by {
            assert(rest[i] == words[i + 1]);
        }
        law_words_read_back(rest);
        if rest.len() > 0 {
            assert(spaced(rest)[0] == ' ');
        }
        law_a_word_reads_back(seq![' '], words[0], spaced(rest));
        assert(seq![words[0]] + rest =~= words);
    }
}

/// Words that are written with blanks between them can stand on one line.
pub proof fn lemma_spaced_is_one_line(words: Seq<Seq<char>>)
    requires
        forall|i: int| 0 <= i < words.len() ==> wordlike(#[trigger] words[i]),
    ensures
        one_line(spaced(words)),
        words.len() > 0 ==> spaced(words).len() > 0 && !whitespace(spaced(words).last()),
    decreases words.len(),
{
    if words.len() > 0 {
        let rest = words.skip(1);
        let first = words[0];
        assert forall|i: int| 0 <= i < rest.len() implies wordlike(#[trigger] rest[i]) by {
            assert(rest[i] == words[i + 1]);
        }
        lemma_spaced_is_one_line(rest);
        let s = spaced(words);
        assert forall|i: int| 0 <= i < s.len() implies #[trigger] s[i] != '\n' by {
            if 0 < i <= first.len() {
                assert(!whitespace(first[i - 1]));
            } else if i > first.len() {
                assert(s[i] == spaced(rest)[i - 1 - first.len()]);
            }
        }
        if rest.len() > 0 {
            assert(s.last() == spaced(rest).last());
        } else {
            assert(s.last() == first[first.len() - 1]);
        }
    }
}

/// A text that is cut at the first of a character falls into what stands before it and
/// what stands behind.
pub proof fn law_a_cut_parts_a_text(before: Seq<char>, c: char, after: Seq<char>)
    requires
        forall|i: int| 0 <= i < before.len() ==> #[trigger] before[i] != c,
    ensures
        cut(before.push(c) + after, c) == Some((before, after)),
{
    let s = before.push(c) + after;
    lemma_position(s, c, 0);
    let p = position(s, c, 0);
    assert(s[before.len() as int] == c);
    if p < before.len() {
        assert(s[p] == before[p]);
    }
    assert(s.take(p) =~= before);
    assert(s.skip(p + 1) =~= after);
}

/// Trimming takes the white space at both ends and nothing else.
pub proof fn law_trimming_takes_the_blanks(
    before: Seq<char>,
    core: Seq<char>,
    after: Seq<char>,
)
    requires
        blank(before),
        blank(after),
        core.len() > 0 ==> !whitespace(core.first()) && !whitespace(core.last()),
    ensures
        trimmed(before + core + after) == core,
{
    let s = before + core + after;
    let start = before.len() as int;
    let end = start + core.len();
    assert forall|i: int| 0 <= i < start implies whitespace(#[trigger] s[i]) by {
        assert(s[i] == before[i]);
    }
    assert forall|i: int| end <= i < s.len() implies whitespace(#[trigger] s[i]) by {
        assert(s[i] == after[i - end]);
    }
    if core.len() > 0 {
        assert(s[start] == core.first());
        assert(s[end - 1] == core.last());
        lemma_blanks_end(s, 0, start);
        lemma_blanks_start(s, start, end, s.len() as int);
        assert(s.subrange(start, end) =~= core);
    } else {
        lemma_blanks_end(s, 0, s.len() as int);
        assert(trimmed(s) =~= core);
    }
}

/// White space ends where the first other character stands.
pub proof fn lemma_blanks_end(s: Seq<char>, at: int, end: int)
    requires
        0 <= at <= end <= s.len(),
        forall|i: int| at <= i < end ==> whitespace(#[trigger] s[i]),
        end < s.len() ==> !whitespace(s[end]),
    ensures
        blank_end(s, at) == end,
    decreases end - at,
{
    if at < end {
        lemma_blanks_end(s, at + 1, end);
    }
}

proof fn lemma_blanks_start(s: Seq<char>, start: int, at: int, end: int)
    requires
        0 <= start < at <= end <= s.len(),
        forall|i: int| at <= i < end ==> whitespace(#[trigger] s[i]),
        !whitespace(s[at - 1]),
    ensures
        blank_start(s, start, end) == at,
    decreases end - at,
{
    if at < end {
        lemma_blanks_start(s, start, at, end - 1);
    }
}

/// The first position at or after `at` that holds no white space, or the length.
pub open spec fn blank_end(s: Seq<char>, at: int) -> int
    decreases s.len() - at,
{
    if at >= s.len() {
        s.len() as int
    } else if !whitespace(s[at]) {
        at
    } else {
        blank_end(s, at + 1)
    }
}

/// The end of what is left of `s` from `start` to `end` once the white space at
/// its end is gone.
pub open spec fn blank_start(s: Seq<char>, start: int, end: int) -> int
    decreases end - start,
{
    if end <= start || !whitespace(s[end - 1]) {
        end
    } else {
        blank_start(s, start, end - 1)
    }
}

/// A text without the white space at its beginning.
pub open spec fn trimmed_start(s: Seq<char>) -> Seq<char> {
    s.skip(blank_end(s, 0))
}

/// A text without the white space at its ends.
pub open spec fn trimmed(s: Seq<char>) -> Seq<char> {
    let start = blank_end(s, 0);
    s.subrange(start, blank_start(s, start, s.len() as int))
}

/// A text without the white space at its beginning.
pub fn trim_start<'a>(s: &'a [char]) -> (r: &'a [char])
    ensures
        r@ == trimmed_start(s@),
{
    let mut start: usize = 0;
    while start < s.len() && is_whitespace(s[start])
        invariant
            start <= s@.len(),
            blank_end(s@, 0) == blank_end(s@, start as int),
        decreases s@.len() - start,
    {
        start += 1;
    }
    let r = slice_subrange(s, start, s.len());
    assert(r@ =~= s@.skip(start as int));
    r
}

/// A text without the white space at its ends.
pub fn trim<'a>(s: &'a [char]) -> (r: &'a [char])
    ensures
        r@ == trimmed(s@),
{
    let mut start: usize = 0;
    while start < s.len() && is_whitespace(s[start])
        invariant
            start <= s@.len(),
            blank_end(s@, 0) == blank_end(s@, start as int),
        decreases s@.len() - start,
    {
        start += 1;
    }
    let mut end: usize = s.len();
    while end > start && is_whitespace(s[end - 1])
        invariant
            start <= end <= s@.len(),
            blank_start(s@, start as int, s@.len() as int) == blank_start(
                s@,
                start as int,
                end as int,
            ),
        decreases end - start,
    {
        end -= 1;
    }
    slice_subrange(s, start, end)
}

/// The trimmed text of a string.
pub fn trim_text(text: &str) -> (r: String)
    ensures
        r@ == trimmed(text@),
{
    let chars: Vec<char> = characters(text);
    owned(trim(chars.as_slice()))
}

/// What trimming leaves neither begins nor ends in white space.
pub proof fn law_trimmed_has_no_blank_ends(s: Seq<char>)
    ensures
        trimmed(s).len() > 0 ==> !whitespace(trimmed(s).first()) && !whitespace(trimmed(s).last()),
{
    lemma_blank_end(s, 0);
    let start = blank_end(s, 0);
    lemma_blank_start(s, start, s.len() as int);
}

/// White space at the beginning of a text ends where something else begins.
pub proof fn lemma_blank_end(s: Seq<char>, at: int)
    requires
        0 <= at <= s.len(),
    ensures
        at <= blank_end(s, at) <= s.len(),
        blank_end(s, at) < s.len() ==> !whitespace(s[blank_end(s, at)]),
    decreases s.len() - at,
{
    if at < s.len() && whitespace(s[at]) {
        lemma_blank_end(s, at + 1);
    }
}

/// White space at the end of a text begins where something else ends.
pub proof fn lemma_blank_start(s: Seq<char>, start: int, end: int)
    requires
        0 <= start <= end <= s.len(),
    ensures
        start <= blank_start(s, start, end) <= end,
        blank_start(s, start, end) > start ==> !whitespace(s[blank_start(s, start, end) - 1]),
    decreases end - start,
{
    if end > start && whitespace(s[end - 1]) {
        lemma_blank_start(s, start, end - 1);
    }
}

proof fn lemma_line_feed_at(s: Seq<char>, at: int)
    requires
        0 <= at <= s.len(),
        forall|i: int| 0 <= i < at ==> #[trigger] s[i] != '\n',
        at < s.len() ==> s[at] == '\n',
    ensures
        position(s, '\n', 0) == at,
{
    lemma_position(s, '\n', 0);
    let p = position(s, '\n', 0);
    if p < at {
        assert(s[p] != '\n');
    }
}

/// A carriage return before the line feed belongs to neither line, and the last line may
/// go without a line feed; it then keeps what it ends in.
pub proof fn law_line_ends_are_dropped(line: Seq<char>)
    requires
        forall|i: int| 0 <= i < line.len() ==> #[trigger] line[i] != '\n',
    ensures
        text_lines(line.push('\r').push('\n')) == seq![line],
        line.len() > 0 ==> text_lines(line) == seq![line],
        text_lines(Seq::empty()) == Seq::<Seq<char>>::empty(),
{
    let none = Seq::<Seq<char>>::empty();
    let s = line.push('\r').push('\n');
    let n = line.len() as int;
    lemma_line_feed_at(s, n + 1);
    assert(s.subrange(0, n + 1) =~= line.push('\r'));
    assert(line.push('\r').drop_last() =~= line);
    assert(lines_from(s, n + 2) =~= none);
    assert(text_lines(s) =~= seq![line]);
    if line.len() > 0 {
        lemma_line_feed_at(line, n);
        assert(line.subrange(0, n) =~= line);
    }
}

/// The blank, the tabulator and the ends of lines are white space; the other characters
/// from the exclamation mark to the tilde are not.
pub proof fn law_white_space_is_blank(c: char)
    ensures
        whitespace(' ') && whitespace('\t') && whitespace('\n') && whitespace('\r'),
        '!' as u32 <= c as u32 <= '~' as u32 ==> !whitespace(c),
{
}

/// No word holds white space.
pub proof fn law_words_hold_no_white_space(s: Seq<char>, i: int, j: int)
    requires
        0 <= i < text_words(s).len(),
        0 <= j < text_words(s)[i].len(),
    ensures
        !whitespace(text_words(s)[i][j]),
{
    lemma_word_clean(s, 0, i, j);
}

proof fn lemma_word_clean(s: Seq<char>, at: int, i: int, j: int)
    requires
        0 <= at,
        0 <= i < words_from(s, at).len(),
        0 <= j < words_from(s, at)[i].len(),
    ensures
        !whitespace(words_from(s, at)[i][j]),
    decreases s.len() - at,
{
    if whitespace(s[at]) {
        lemma_word_clean(s, at + 1, i, j);
    } else {
        let end = word_end(s, at);
        lemma_word_end(s, at);
        if i == 0 {
            assert(s.subrange(at, end)[j] == s[at + j]);
        } else {
            lemma_word_clean(s, end, i - 1, j);
        }
    }
}

} // verus!
