//! Decimal numbers: reading them from a text and writing them into one.

use crate::text::{
    blank, characters, digit, digits, is_digit, is_digits, law_trimming_takes_the_blanks,
    optional_text, texts, trim, trimmed, whitespace, wordlike,
};
use vstd::prelude::*;
use vstd::slice::slice_subrange;

verus! {

/// The number that a decimal digit stands for.
pub open spec fn digit_value(c: char) -> nat {
    if digit(c) {
        (c as u32 - '0' as u32) as nat
    } else {
        0
    }
}

/// The number that a run of decimal digits spells.
pub open spec fn value(s: Seq<char>) -> nat
    decreases s.len(),
{
    if s.len() == 0 {
        0
    } else {
        value(s.drop_last()) * 10 + digit_value(s.last())
    }
}

/// A prefix spells no larger number than the whole.
pub proof fn lemma_value_prefix(s: Seq<char>, n: int)
    requires
        0 <= n <= s.len(),
    ensures
        value(s.take(n)) <= value(s),
    decreases s.len(),
{
    if n < s.len() {
        lemma_value_prefix(s.drop_last(), n);
        assert(s.drop_last().take(n) =~= s.take(n));
    } else {
        assert(s.take(n) =~= s);
    }
}

/// The number that a run of decimal digits spells, if it is one and at most `max`.
pub open spec fn parsed_digits(s: Seq<char>, max: nat) -> Option<nat> {
    if digits(s) && value(s) <= max {
        Some(value(s))
    } else {
        None
    }
}

/// A text without the plus sign that it may begin with.
pub open spec fn without_plus(s: Seq<char>) -> Seq<char> {
    if s.len() > 0 && s[0] == '+' {
        s.skip(1)
    } else {
        s
    }
}

/// The unsigned number that a text spells: digits, with or without a plus sign.
pub open spec fn parsed_unsigned(s: Seq<char>, max: nat) -> Option<nat> {
    parsed_digits(without_plus(s), max)
}

/// The 64-bit unsigned number that a text spells.
pub open spec fn parsed_u64(s: Seq<char>) -> Option<u64> {
    match parsed_unsigned(s, u64::MAX as nat) {
        Some(n) => Some(n as u64),
        None => None,
    }
}

/// The 32-bit unsigned number that a text spells.
pub open spec fn parsed_u32(s: Seq<char>) -> Option<u32> {
    match parsed_unsigned(s, u32::MAX as nat) {
        Some(n) => Some(n as u32),
        None => None,
    }
}

/// The machine-sized unsigned number that a text spells.
pub open spec fn parsed_usize(s: Seq<char>) -> Option<usize> {
    match parsed_unsigned(s, usize::MAX as nat) {
        Some(n) => Some(n as usize),
        None => None,
    }
}

/// The 64-bit signed number that a text spells: digits, with or without a sign.
pub open spec fn parsed_i64(s: Seq<char>) -> Option<i64> {
    if s.len() > 0 && s[0] == '-' {
        match parsed_digits(s.skip(1), 0x8000_0000_0000_0000) {
            Some(n) => Some((-n) as i64),
            None => None,
        }
    } else {
        match parsed_unsigned(s, 0x7fff_ffff_ffff_ffff) {
            Some(n) => Some(n as i64),
            None => None,
        }
    }
}

/// Reads a run of digits that spells a number of at most `max`.
fn parse_digits(s: &[char], max: u64) -> (r: Option<u64>)
    ensures
        (match r {
            Some(n) => Some(n as nat),
            None => None,
        }) == parsed_digits(s@, max as nat),
{
    if s.len() == 0 {
        return None;
    }
    let mut v: u64 = 0;
    let mut i: usize = 0;
    while i < s.len()
        invariant
            i <= s@.len(),
            v == value(s@.take(i as int)),
            v <= max,
            forall|j: int| 0 <= j < i ==> digit(#[trigger] s@[j]),
        decreases s@.len() - i,
    {
        let c: char = s[i];
        if !is_digit(c) {
            assert(!digit(s@[i as int]));
            return None;
        }
        let d: u64 = (c as u32 - 0x30) as u64;
        assert(s@.take(i + 1).drop_last() =~= s@.take(i as int));
        assert(s@.take(i + 1).last() == c);
        assert(value(s@.take(i + 1)) == value(s@.take(i as int)) * 10 + d);
        if v > max / 10 || d > max - v * 10 {
            proof {
                lemma_value_prefix(s@, i + 1);
            }
            return None;
        }
        v = v * 10 + d;
        i += 1;
    }
    assert(s@.take(i as int) =~= s@);
    Some(v)
}

/// Reads an unsigned number of at most `max`.
fn parse_unsigned(s: &[char], max: u64) -> (r: Option<u64>)
    ensures
        (match r {
            Some(n) => Some(n as nat),
            None => None,
        }) == parsed_unsigned(s@, max as nat),
{
    if s.len() > 0 && s[0] == '+' {
        let rest = slice_subrange(s, 1, s.len());
        assert(rest@ =~= s@.skip(1));
        parse_digits(rest, max)
    } else {
        parse_digits(s, max)
    }
}

/// Reads a 64-bit unsigned number.
pub fn parse_u64(s: &[char]) -> (r: Option<u64>)
    ensures
        r == parsed_u64(s@),
{
    parse_unsigned(s, u64::MAX)
}

/// Reads a 32-bit unsigned number.
pub fn parse_u32(s: &[char]) -> (r: Option<u32>)
    ensures
        r == parsed_u32(s@),
{
    match parse_unsigned(s, u32::MAX as u64) {
        Some(n) => Some(n as u32),
        None => None,
    }
}

/// Reads a machine-sized unsigned number.
pub fn parse_usize(s: &[char]) -> (r: Option<usize>)
    ensures
        r == parsed_usize(s@),
{
    match parse_unsigned(s, usize::MAX as u64) {
        Some(n) => Some(n as usize),
        None => None,
    }
}

/// Reads a 64-bit signed number.
pub fn parse_i64(s: &[char]) -> (r: Option<i64>)
    ensures
        r == parsed_i64(s@),
{
    if s.len() > 0 && s[0] == '-' {
        let rest = slice_subrange(s, 1, s.len());
        assert(rest@ =~= s@.skip(1));
        match parse_digits(rest, 0x8000_0000_0000_0000) {
            Some(n) => if n == 0x8000_0000_0000_0000 {
                Some(i64::MIN)
            } else {
                Some(-(n as i64))
            },
            None => None,
        }
    } else {
        match parse_unsigned(s, 0x7fff_ffff_ffff_ffff) {
            Some(n) => Some(n as i64),
            None => None,
        }
    }
}

/// The number that a text spells, or zero.
pub open spec fn count_or_zero(s: Seq<char>) -> u64 {
    match parsed_u64(s) {
        Some(n) => n,
        None => 0,
    }
}

/// The number that a text spells, or zero.
pub fn parse_count(s: &[char]) -> (r: u64)
    ensures
        r == count_or_zero(s@),
{
    match parse_u64(s) {
        Some(n) => n,
        None => 0,
    }
}

/// The signed number that a file holds, between blanks, where it could be read.
pub open spec fn signed_content(content: Option<Seq<char>>) -> Option<i64> {
    match content {
        Some(text) => parsed_i64(trimmed(text)),
        None => None,
    }
}

/// The signed number that a file holds, between blanks, where it could be read.
pub fn read_i64(content: &Option<String>) -> (r: Option<i64>)
    ensures
        r == signed_content(optional_text(*content)),
{
    match content {
        Some(text) => {
            let chars: Vec<char> = characters(text.as_str());
            parse_i64(trim(chars.as_slice()))
        },
        None => None,
    }
}

/// The decimal digit that stands for `n`.
pub open spec fn digit_char(n: nat) -> char {
    ('0' as u32 + n) as char
}

/// The decimal digits of a number, without leading zeros.
pub open spec fn decimal(n: nat) -> Seq<char>
    decreases n,
{
    if n < 10 {
        seq![digit_char(n)]
    } else {
        decimal(n / 10).push(digit_char(n % 10))
    }
}

/// What is written of a number reads as that number.
pub proof fn law_decimal_reads_back(n: nat)
    ensures
        digits(decimal(n)),
        value(decimal(n)) == n,
        without_plus(decimal(n)) == decimal(n),
        n <= u64::MAX ==> parsed_u64(decimal(n)) == Some(n as u64),
{
    lemma_decimal(n);
}

proof fn lemma_decimal(n: nat)
    ensures
        digits(decimal(n)),
        value(decimal(n)) == n,
    decreases n,
{
    if n < 10 {
        let s = decimal(n);
        assert(s.drop_last() =~= Seq::<char>::empty());
        assert(value(s) == value(s.drop_last()) * 10 + digit_value(s.last()));
    } else {
        lemma_decimal(n / 10);
        let s = decimal(n);
        assert(s.drop_last() =~= decimal(n / 10));
        assert(value(s) == value(s.drop_last()) * 10 + digit_value(s.last()));
        assert forall|i: int| 0 <= i < s.len() implies digit(#[trigger] s[i]) by {
            if i < s.len() - 1 {
                assert(s[i] == decimal(n / 10)[i]);
            }
        }
    }
}

/// What is written of a number holds no white space.
pub proof fn lemma_decimal_is_a_word(n: nat)
    ensures
        wordlike(decimal(n)),
        n <= u32::MAX ==> parsed_u32(decimal(n)) == Some(n as u32),
        n <= u64::MAX ==> count_or_zero(decimal(n)) == n,
{
    law_decimal_reads_back(n);
    let s = decimal(n);
    assert forall|i: int| 0 <= i < s.len() implies !whitespace(#[trigger] s[i]) by {
        assert(digit(s[i]));
    }
}

/// A signed number reads back, with a sign or without, and whatever white space stands
/// around it.
pub proof fn law_signed_numbers_read_back(before: Seq<char>, n: nat, after: Seq<char>)
    requires
        blank(before),
        blank(after),
        n <= i64::MAX,
    ensures
        signed_content(Some(before + decimal(n) + after)) == Some(n as i64),
        signed_content(Some(before + (seq!['-'] + decimal(n)) + after)) == Some((-n) as i64),
        signed_content(None) is None,
{
    lemma_decimal_is_a_word(n);
    law_decimal_reads_back(n);
    let s = decimal(n);
    let t = seq!['-'] + s;
    assert(digit(s[0]));
    assert(!whitespace(s[0]) && !whitespace(s[s.len() - 1]));
    assert(t[0] == '-');
    assert(t.skip(1) =~= s);
    assert(t.last() == s[s.len() - 1]);
    law_trimming_takes_the_blanks(before, s, after);
    law_trimming_takes_the_blanks(before, t, after);
}

/// The decimal digit that stands for `n`.
fn digit_of(n: u64) -> (r: char)
    requires
        n < 10,
    ensures
        r == digit_char(n as nat),
{
    (0x30u8 + n as u8) as char
}

/// Writes a number in decimal digits.
pub fn push_decimal(out: &mut String, n: u64)
    ensures
        final(out)@ == old(out)@ + decimal(n as nat),
    decreases n,
{
    if n >= 10 {
        push_decimal(out, n / 10);
    }
    out.push(digit_of(n % 10));
    assert(out@ =~= old(out)@ + decimal(n as nat));
}

/// The decimal digits of a number.
pub fn decimal_text(n: u64) -> (r: String)
    ensures
        r@ == decimal(n as nat),
{
    let mut r: String = String::new();
    push_decimal(&mut r, n);
    assert(r@ =~= decimal(n as nat));
    r
}

/// The decimal digits of a number, with a zero before a single one.
pub open spec fn two_digits(n: nat) -> Seq<char> {
    if n < 10 {
        seq!['0'] + decimal(n)
    } else {
        decimal(n)
    }
}

/// Writes a number in at least two decimal digits.
pub fn push_two_digits(out: &mut String, n: u64)
    ensures
        final(out)@ == old(out)@ + two_digits(n as nat),
{
    if n < 10 {
        out.push('0');
    }
    push_decimal(out, n);
    assert(out@ =~= old(out)@ + two_digits(n as nat));
}

/// The position behind the decimal digits that begin at `at`.
pub open spec fn digits_end(s: Seq<char>, at: int) -> int
    decreases s.len() - at,
{
    if at >= s.len() || !digit(s[at]) {
        at
    } else {
        digits_end(s, at + 1)
    }
}

/// A character without regard to case, for ASCII letters.
pub open spec fn lower(c: char) -> char {
    if 'A' as u32 <= c as u32 <= 'Z' as u32 {
        (c as u32 + 32) as char
    } else {
        c
    }
}

/// A text without regard to case, for ASCII letters.
pub open spec fn lowered(s: Seq<char>) -> Seq<char> {
    Seq::new(s.len(), |i: int| lower(s[i]))
}

/// A sign.
pub open spec fn sign(c: char) -> bool {
    c == '+' || c == '-'
}

/// A text without the sign that it may begin with.
pub open spec fn without_sign(s: Seq<char>) -> Seq<char> {
    if s.len() > 0 && sign(s[0]) {
        s.skip(1)
    } else {
        s
    }
}

/// Whether a text is an exponent: the letter, a sign or none, and digits.
pub open spec fn exponent(s: Seq<char>) -> bool {
    s.len() > 0 && lower(s[0]) == 'e' && digits(without_sign(s.skip(1)))
}

/// Whether a text is a number with or without a fraction and an exponent: at
/// least one digit, before the point or behind it.
pub open spec fn plain_number(s: Seq<char>) -> bool {
    let whole = digits_end(s, 0);
    if whole < s.len() && s[whole] == '.' {
        let end = digits_end(s, whole + 1);
        (whole > 0 || end > whole + 1) && (end == s.len() || exponent(s.skip(end)))
    } else {
        whole > 0 && (whole == s.len() || exponent(s.skip(whole)))
    }
}

/// Whether a text spells a real number, an infinity or a not-a-number.
pub open spec fn real_number(s: Seq<char>) -> bool {
    let rest = without_sign(s);
    ||| plain_number(rest)
    ||| lowered(rest) == seq!['i', 'n', 'f']
    ||| lowered(rest) == seq!['i', 'n', 'f', 'i', 'n', 'i', 't', 'y']
    ||| lowered(rest) == seq!['n', 'a', 'n']
}

/// The position behind the decimal digits that begin at `at`.
pub fn end_of_digits(s: &[char], at: usize) -> (r: usize)
    requires
        at <= s@.len(),
    ensures
        r == digits_end(s@, at as int),
        at <= r <= s@.len(),
{
    let mut i: usize = at;
    while i < s.len() && is_digit(s[i])
        invariant
            at <= i <= s@.len(),
            digits_end(s@, at as int) == digits_end(s@, i as int),
        decreases s@.len() - i,
    {
        i += 1;
    }
    i
}

fn to_lower(c: char) -> (r: char)
    ensures
        r == lower(c),
{
    let code: u32 = c as u32;
    if 0x41 <= code && code <= 0x5a {
        (code as u8 + 32) as char
    } else {
        c
    }
}

fn strip_sign<'a>(s: &'a [char]) -> (r: &'a [char])
    ensures
        r@ == without_sign(s@),
{
    if s.len() > 0 && (s[0] == '+' || s[0] == '-') {
        let rest = slice_subrange(s, 1, s.len());
        assert(rest@ =~= s@.skip(1));
        rest
    } else {
        s
    }
}

fn is_exponent(s: &[char]) -> (r: bool)
    ensures
        r == exponent(s@),
{
    if s.len() == 0 || to_lower(s[0]) != 'e' {
        return false;
    }
    let rest = slice_subrange(s, 1, s.len());
    assert(rest@ =~= s@.skip(1));
    is_digits(strip_sign(rest))
}

fn is_plain_number(s: &[char]) -> (r: bool)
    ensures
        r == plain_number(s@),
{
    let whole: usize = end_of_digits(s, 0);
    if whole < s.len() && s[whole] == '.' {
        let end: usize = end_of_digits(s, whole + 1);
        let rest = slice_subrange(s, end, s.len());
        assert(rest@ =~= s@.skip(end as int));
        (whole > 0 || end > whole + 1) && (end == s.len() || is_exponent(rest))
    } else {
        let rest = slice_subrange(s, whole, s.len());
        assert(rest@ =~= s@.skip(whole as int));
        whole > 0 && (whole == s.len() || is_exponent(rest))
    }
}

fn is_word(s: &[char], word: &[char]) -> (r: bool)
    ensures
        r == (lowered(s@) == word@),
{
    if s.len() != word.len() {
        assert(lowered(s@).len() != word@.len());
        return false;
    }
    let mut i: usize = 0;
    while i < s.len()
        invariant
            i <= s@.len(),
            s@.len() == word@.len(),
            forall|j: int| 0 <= j < i ==> lower(#[trigger] s@[j]) == word@[j],
        decreases s@.len() - i,
    {
        if to_lower(s[i]) != word[i] {
            assert(lowered(s@)[i as int] != word@[i as int]);
            return false;
        }
        i += 1;
    }
    assert(lowered(s@) =~= word@);
    true
}

/// Whether a text spells a real number, an infinity or a not-a-number.
pub fn is_real_number(s: &[char]) -> (r: bool)
    ensures
        r == real_number(s@),
{
    let rest = strip_sign(s);
    let inf: [char; 3] = ['i', 'n', 'f'];
    let infinity: [char; 8] = ['i', 'n', 'f', 'i', 'n', 'i', 't', 'y'];
    let nan: [char; 3] = ['n', 'a', 'n'];
    assert(inf@ =~= seq!['i', 'n', 'f']);
    assert(infinity@ =~= seq!['i', 'n', 'f', 'i', 'n', 'i', 't', 'y']);
    assert(nan@ =~= seq!['n', 'a', 'n']);
    is_plain_number(rest) || is_word(rest, &inf) || is_word(rest, &infinity) || is_word(rest, &nan)
}

/// A number modulo two to the 64th power, as 64-bit counters count.
pub open spec fn wrapped(n: nat) -> u64 {
    (n % 0x1_0000_0000_0000_0000) as u64
}

/// Wrapping on the way to a sum does not change the sum.
pub proof fn lemma_wrapped_sum(a: nat, b: nat)
    ensures
        wrapped(wrapped(a) as nat + wrapped(b) as nat) == wrapped(a + b),
        wrapped(wrapped(a) as nat + b) == wrapped(a + b),
{
    vstd::arithmetic::div_mod::lemma_add_mod_noop(a as int, b as int, 0x1_0000_0000_0000_0000);
    vstd::arithmetic::div_mod::lemma_add_mod_noop(
        (a % 0x1_0000_0000_0000_0000) as int,
        b as int,
        0x1_0000_0000_0000_0000,
    );
}

/// The sum of two counters.
pub fn add_wrapped(a: u64, b: u64) -> (r: u64)
    ensures
        r == wrapped(a as nat + b as nat),
{
    a.wrapping_add(b)
}

/// The product of a counter and the size of what it counts.
pub fn mul_wrapped(a: u64, b: u64) -> (r: u64)
    ensures
        r == wrapped(a as nat * b as nat),
{
    a.wrapping_mul(b)
}

/// The numbers among some words, in their order; what is no number is passed over.
pub open spec fn numbers(words: Seq<Seq<char>>) -> Seq<u64>
    decreases words.len(),
{
    if words.len() == 0 {
        Seq::empty()
    } else {
        match parsed_u64(words.last()) {
            Some(n) => numbers(words.drop_last()).push(n),
            None => numbers(words.drop_last()),
        }
    }
}

/// The numbers among the words from position `from` on.
pub fn parse_numbers(words: &Vec<&[char]>, from: usize) -> (r: Vec<u64>)
    requires
        from <= words@.len(),
    ensures
        r@ == numbers(texts(words@).skip(from as int)),
{
    let ghost all = texts(words@).skip(from as int);
    let mut r: Vec<u64> = Vec::new();
    let mut i: usize = from;
    assert(all.take(0) =~= Seq::<Seq<char>>::empty());
    while i < words.len()
        invariant
            from <= i <= words@.len(),
            all == texts(words@).skip(from as int),
            r@ == numbers(all.take(i - from)),
        decreases words@.len() - i,
    {
        let ghost k = i - from;
        assert(all.take(k + 1).drop_last() =~= all.take(k));
        assert(all.take(k + 1).last() == words@[i as int]@);
        if let Some(n) = parse_u64(words[i]) {
            r.push(n);
        }
        i += 1;
    }
    assert(all.take(i - from) =~= all);
    r
}

/// Numbers among words read back as they were.
pub proof fn law_numbers_read_back(values: Seq<u64>)
    ensures
        numbers(values.map_values(|n: u64| decimal(n as nat))) == values,
    decreases values.len(),
{
    let words = values.map_values(|n: u64| decimal(n as nat));
    if values.len() == 0 {
        assert(numbers(words) =~= values);
    } else {
        let fewer = values.drop_last();
        law_numbers_read_back(fewer);
        law_decimal_reads_back(values.last() as nat);
        assert(words.drop_last() =~= fewer.map_values(|n: u64| decimal(n as nat)));
        assert(numbers(words) =~= values);
    }
}

/// Numbers are written in base ten: ten digits, and ten times a number and a digit is the
/// number with the digit behind it.
pub proof fn law_numbers_are_written_in_base_ten(n: nat, d: nat)
    requires
        d < 10,
    ensures
        decimal(0) == seq!['0'],
        decimal(1) == seq!['1'],
        decimal(2) == seq!['2'],
        decimal(3) == seq!['3'],
        decimal(4) == seq!['4'],
        decimal(5) == seq!['5'],
        decimal(6) == seq!['6'],
        decimal(7) == seq!['7'],
        decimal(8) == seq!['8'],
        decimal(9) == seq!['9'],
        n > 0 ==> decimal(n * 10 + d) == decimal(n) + decimal(d),
{
    if n > 0 {
        assert((n * 10 + d) / 10 == n && (n * 10 + d) % 10 == d);
        assert(decimal(n * 10 + d) =~= decimal(n) + decimal(d));
    }
}

/// One digit more makes a number ten times as large and adds the digit, as long as the
/// number fits; a number that does not fit is none.
pub proof fn law_a_digit_more(s: Seq<char>, d: nat)
    requires
        digits(s),
        d < 10,
        parsed_u64(s) is Some,
    ensures
        parsed_u64(s)->0 * 10 + d <= u64::MAX ==> parsed_u64(s + decimal(d)) == Some(
            (parsed_u64(s)->0 * 10 + d) as u64,
        ),
        parsed_u64(s)->0 * 10 + d > u64::MAX ==> parsed_u64(s + decimal(d)) is None,
{
    let t = s + decimal(d);
    assert(t.drop_last() =~= s);
    assert(digit(s[0]));
    lemma_decimal(d);
    assert(decimal(d).len() == 1);
    assert(t.last() == decimal(d)[0]);
    assert(digit_value(digit_char(d)) == d);
    assert forall|i: int| 0 <= i < t.len() implies digit(#[trigger] t[i]) by {
        if i < s.len() {
            assert(t[i] == s[i]);
        }
    }
    assert(value(t) == value(s) * 10 + d);
}

/// A number is made of digits, with a sign before them or without; what holds anything
/// else, or nothing, is no number.
pub proof fn law_other_texts_are_no_numbers(s: Seq<char>, i: int)
    ensures
        s.len() == 0 ==> parsed_u64(s) is None && parsed_u32(s) is None && parsed_i64(s) is None,
        0 < i < s.len() && !('0' as u32 <= s[i] as u32 <= '9' as u32) ==> parsed_u64(s) is None
            && parsed_u32(s) is None && parsed_i64(s) is None && parsed_usize(s) is None,
        s.len() > 0 && !('0' as u32 <= s[0] as u32 <= '9' as u32) && s[0] != '+'
            ==> parsed_u64(s) is None
            && parsed_u32(s) is None && parsed_usize(s) is None,
        s.len() > 0 && !('0' as u32 <= s[0] as u32 <= '9' as u32) && s[0] != '+' && s[0] != '-'
            ==> parsed_i64(s) is None,
{
    if 0 < i < s.len() && !('0' as u32 <= s[i] as u32 <= '9' as u32) {
        assert(s.skip(1)[i - 1] == s[i]);
        assert(!digit(s[i]));
    }
}

/// A count that is no number is zero, and one that is counts in full.
pub proof fn law_a_count_is_its_number_or_zero(s: Seq<char>)
    ensures
        parsed_u64(s) is Some ==> count_or_zero(s) == parsed_u64(s)->0,
        parsed_u64(s) is None ==> count_or_zero(s) == 0,
{
}

/// The digits end before the first character that is none.
pub proof fn lemma_digits_end(s: Seq<char>, at: int, end: int)
    requires
        0 <= at <= end <= s.len(),
        forall|i: int| at <= i < end ==> digit(#[trigger] s[i]),
        end < s.len() ==> !digit(s[end]),
    ensures
        digits_end(s, at) == end,
    decreases end - at,
{
    if at < end {
        lemma_digits_end(s, at + 1, end);
    }
}

/// Digits are a real number, with a point and further digits behind them or without, and
/// with a sign before them or without; a text without a digit is none, unless it spells
/// an infinity or a not-a-number.
pub proof fn law_real_numbers_are_recognised(whole: Seq<char>, fraction: Seq<char>,
    other: Seq<char>)
    requires
        digits(whole),
        digits(fraction),
        forall|i: int| 0 <= i < other.len() ==> !digit(#[trigger] other[i]),
        other.len() > 0 ==> lower(other.last()) != 'f' && lower(other.last()) != 'y' && lower(
            other.last(),
        ) != 'n',
    ensures
        real_number(whole),
        real_number(whole.push('.') + fraction),
        real_number(seq!['-'] + whole),
        real_number(seq!['-'] + (whole.push('.') + fraction)),
        !real_number(other),
{
    let n = whole.len() as int;
    let both = whole.push('.') + fraction;
    assert(digit(whole[0]));
    lemma_digits_end(whole, 0, n);
    assert forall|i: int| 0 <= i < n implies digit(#[trigger] both[i]) by {
        assert(both[i] == whole[i]);
    }
    assert(both[n] == '.');
    lemma_digits_end(both, 0, n);
    assert forall|i: int| n + 1 <= i < both.len() implies digit(#[trigger] both[i]) by {
        assert(both[i] == fraction[i - n - 1]);
    }
    lemma_digits_end(both, n + 1, both.len() as int);
    assert((seq!['-'] + whole).skip(1) =~= whole);
    assert((seq!['-'] + both).skip(1) =~= both);
    let rest = without_sign(other);
    assert forall|i: int| 0 <= i < rest.len() implies !digit(#[trigger] rest[i]) by {
        if rest.len() < other.len() {
            assert(rest[i] == other[i + 1]);
        }
    }
    if rest.len() > 0 {
        assert(rest.last() == other.last());
        assert(lowered(rest).last() == lower(rest.last()));
    }
    lemma_digits_end(rest, 0, 0);
    if rest.len() > 0 {
        lemma_digits_end(rest, 1, 1);
    }
    assert(lowered(rest).len() == rest.len());
    assert(seq!['i', 'n', 'f'].last() == 'f');
    assert(seq!['i', 'n', 'f', 'i', 'n', 'i', 't', 'y'].last() == 'y');
    assert(seq!['n', 'a', 'n'].last() == 'n');
}

/// Counters start again at zero behind the largest number of 64 bits.
pub proof fn law_counters_start_again(n: nat)
    ensures
        n < 0x1_0000_0000_0000_0000 ==> wrapped(n) == n,
        wrapped(n + 0x1_0000_0000_0000_0000) == wrapped(n),
{
}

} // verus!
