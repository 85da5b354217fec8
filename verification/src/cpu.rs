//! The CPU: its times, its count and its share of work.

use crate::number::{
    add_wrapped, decimal, law_decimal_reads_back, law_numbers_read_back,
    law_signed_numbers_read_back, lemma_decimal_is_a_word, lemma_wrapped_sum, mul_wrapped, numbers,
    parse_numbers, read_i64, signed_content, wrapped,
};
use crate::order::{
    arranged, law_arranged_is_sorted, lemma_text_total, lemma_text_transitive, sort, text_at_most,
    text_le, Ranked,
};
use crate::snapshot::{CpuFrequency, CpuFrequencyView};
use crate::text::{
    after_prefix, begins, blank, characters, digit, is_digit, law_a_word_reads_back,
    law_words_read_back, lines, optional_text, owned, spaced, strip_prefix, text_lines, text_words,
    texts, views, wordlike, words,
};
use vstd::prelude::*;

verus! {

/// The time that the CPUs have spent, in all and idle, in clock ticks.
#[derive(Clone, Copy, Debug)]
pub struct CpuTimes {
    pub total: u64,
    pub idle: u64,
}

impl Default for CpuTimes {
    fn default() -> (r: Self)
        ensures
            r == (CpuTimes { total: 0, idle: 0 }),
    {
        CpuTimes { total: 0, idle: 0 }
    }
}

/// Why the CPU times cannot be read.
#[derive(Clone, Copy, Debug, PartialEq, Eq, Structural)]
pub enum CpuError {
    /// There is no line at all.
    Missing,
    /// The first line holds fewer than four numbers.
    Invalid,
}

impl CpuError {
    /// What is said of the error.
    pub open spec fn text(self) -> Seq<char> {
        match self {
            CpuError::Missing => "missing aggregate CPU line"@,
            CpuError::Invalid => "invalid aggregate CPU line"@,
        }
    }

    /// What is said of the error.
    pub fn message(&self) -> (r: String)
        ensures
            r@ == self.text(),
    {
        match self {
            CpuError::Missing => "missing aggregate CPU line".to_owned(),
            CpuError::Invalid => "invalid aggregate CPU line".to_owned(),
        }
    }
}

/// The sum of some numbers.
pub open spec fn sum(s: Seq<u64>) -> nat
    decreases s.len(),
{
    if s.len() == 0 {
        0
    } else {
        sum(s.drop_last()) + s.last() as nat
    }
}

/// The numbers of the aggregate line, which is the first one, without its name.
pub open spec fn aggregate(input: Seq<char>) -> Seq<u64> {
    let fields = text_words(text_lines(input)[0]);
    if fields.len() == 0 {
        Seq::empty()
    } else {
        numbers(fields.skip(1))
    }
}

/// Whether a line is about a single CPU: `cpu` and a digit.
pub open spec fn names_a_cpu(line: Seq<char>) -> bool {
    match after_prefix(line, "cpu"@) {
        Some(rest) => rest.len() > 0 && digit(rest[0]),
        None => false,
    }
}

/// How many lines are about a single CPU.
pub open spec fn count_cpus(lines: Seq<Seq<char>>) -> nat
    decreases lines.len(),
{
    if lines.len() == 0 {
        0
    } else {
        count_cpus(lines.drop_last()) + if names_a_cpu(lines.last()) {
            1nat
        } else {
            0
        }
    }
}

/// The times on the aggregate line. The fourth number is idle time and so is the
/// fifth, which waits for a disk.
pub open spec fn times_of(fields: Seq<u64>) -> CpuTimes {
    CpuTimes {
        total: wrapped(sum(fields)),
        idle: wrapped(
            fields[3] as nat + if fields.len() > 4 {
                fields[4] as nat
            } else {
                0
            },
        ),
    }
}

/// What the kernel's `stat` says of the CPUs: the times on its first line and the
/// number of CPUs.
pub open spec fn cpu_times_of(input: Seq<char>) -> Result<(CpuTimes, nat), CpuError> {
    if text_lines(input).len() == 0 {
        Err(CpuError::Missing)
    } else if aggregate(input).len() < 4 {
        Err(CpuError::Invalid)
    } else {
        Ok((times_of(aggregate(input)), count_cpus(text_lines(input))))
    }
}

fn is_cpu_line(line: &[char]) -> (r: bool)
    ensures
        r == names_a_cpu(line@),
{
    match strip_prefix(line, "cpu") {
        Some(rest) => rest.len() > 0 && is_digit(rest[0]),
        None => false,
    }
}

/// Reads the CPU times and counts the CPUs.
pub fn parse_cpu_times(input: &str) -> (r: Result<(CpuTimes, usize), CpuError>)
    ensures
        (match r {
            Ok((times, count)) => Ok((times, count as nat)),
            Err(error) => Err(error),
        }) == cpu_times_of(input@),
{
    let chars: Vec<char> = characters(input);
    let all: Vec<&[char]> = lines(chars.as_slice());
    let ghost seen = texts(all@);
    if all.len() == 0 {
        return Err(CpuError::Missing);
    }
    assert(seen[0] == all@[0]@);
    let fields: Vec<&[char]> = words(all[0]);
    assert(texts(fields@).len() == fields@.len());
    let values: Vec<u64> = if fields.len() == 0 {
        Vec::new()
    } else {
        parse_numbers(&fields, 1)
    };
    assert(values@ =~= aggregate(input@));
    if values.len() < 4 {
        return Err(CpuError::Invalid);
    }
    let idle: u64 = add_wrapped(
        values[3],
        if values.len() > 4 {
            values[4]
        } else {
            0
        },
    );
    let mut total: u64 = 0;
    let mut i: usize = 0;
    while i < values.len()
        invariant
            i <= values@.len(),
            total == wrapped(sum(values@.take(i as int))),
        decreases values@.len() - i,
    {
        assert(values@.take(i + 1).drop_last() =~= values@.take(i as int));
        proof {
            lemma_wrapped_sum(sum(values@.take(i as int)), values@[i as int] as nat);
        }
        total = add_wrapped(total, values[i]);
        i += 1;
    }
    assert(values@.take(i as int) =~= values@);
    let mut count: usize = 0;
    let mut k: usize = 0;
    while k < all.len()
        invariant
            k <= all@.len(),
            seen == texts(all@),
            count <= k,
            count == count_cpus(seen.take(k as int)),
        decreases all@.len() - k,
    {
        assert(seen.take(k + 1).drop_last() =~= seen.take(k as int));
        assert(seen.take(k + 1).last() == all@[k as int]@);
        if is_cpu_line(all[k]) {
            count += 1;
        }
        k += 1;
    }
    assert(seen.take(k as int) =~= seen);
    Ok((CpuTimes { total, idle }, count))
}

/// The time that passed between two readings and how much of it was work. A
/// counter that went back counts as no time.
pub struct CpuUsage {
    pub busy: u64,
    pub total: u64,
}

/// What `a` is more than `b`, if it is.
pub open spec fn excess(a: u64, b: u64) -> u64 {
    if a < b {
        0
    } else {
        (a - b) as u64
    }
}

/// The time between two readings and how much of it was work.
pub fn cpu_usage(previous: CpuTimes, now: CpuTimes) -> (r: CpuUsage)
    ensures
        r.total == excess(now.total, previous.total),
        r.busy == excess(r.total, excess(now.idle, previous.idle)),
        r.busy <= r.total,
{
    let total: u64 = now.total.saturating_sub(previous.total);
    let idle: u64 = now.idle.saturating_sub(previous.idle);
    CpuUsage { busy: total.saturating_sub(idle), total }
}

/// A frequency policy: what its files hold where they could be read.
pub struct FrequencyPolicy {
    pub affected_cpus: Option<String>,
    /// In thousands of hertz.
    pub scaling_cur_freq: Option<String>,
}

/// The view of `FrequencyPolicy`.
#[verifier::ext_equal]
pub struct FrequencyPolicyView {
    pub affected_cpus: Option<Seq<char>>,
    pub scaling_cur_freq: Option<Seq<char>>,
}

impl View for FrequencyPolicy {
    type V = FrequencyPolicyView;

    open spec fn view(&self) -> FrequencyPolicyView {
        FrequencyPolicyView {
            affected_cpus: optional_text(self.affected_cpus),
            scaling_cur_freq: optional_text(self.scaling_cur_freq),
        }
    }
}

/// Frequencies are ordered by the name of the CPU.
impl Ranked for CpuFrequency {
    open spec fn le(a: CpuFrequencyView, b: CpuFrequencyView) -> bool {
        text_le(a.cpu, b.cpu)
    }

    fn at_most(&self, other: &Self) -> (r: bool) {
        text_at_most(self.cpu.as_str(), other.cpu.as_str())
    }

    proof fn total(a: CpuFrequencyView, b: CpuFrequencyView) {
        lemma_text_total(a.cpu, b.cpu, 0);
    }

    proof fn transitive(a: CpuFrequencyView, b: CpuFrequencyView, c: CpuFrequencyView) {
        lemma_text_transitive(a.cpu, b.cpu, c.cpu, 0);
    }
}

/// A number of kilohertz in hertz. What is negative counts as zero.
pub open spec fn hertz_of(kilohertz: i64) -> u64 {
    if kilohertz < 0 {
        0
    } else {
        wrapped(kilohertz as nat * 1000)
    }
}

/// The same frequency for each of some CPUs.
pub open spec fn each_at(cpus: Seq<Seq<char>>, hertz: u64) -> Seq<CpuFrequencyView> {
    Seq::new(cpus.len(), |i: int| CpuFrequencyView { cpu: cpus[i], hertz })
}

/// What a policy says of its CPUs.
pub open spec fn policy_frequencies(policy: FrequencyPolicyView) -> Seq<CpuFrequencyView> {
    match (policy.affected_cpus, signed_content(policy.scaling_cur_freq)) {
        (Some(cpus), Some(kilohertz)) => each_at(text_words(cpus), hertz_of(kilohertz)),
        _ => Seq::empty(),
    }
}

/// What some policies say of their CPUs, in the order of the policies.
pub open spec fn frequencies_of(policies: Seq<FrequencyPolicyView>) -> Seq<CpuFrequencyView>
    decreases policies.len(),
{
    if policies.len() == 0 {
        Seq::empty()
    } else {
        frequencies_of(policies.drop_last()) + policy_frequencies(policies.last())
    }
}

fn push_frequencies(out: &mut Vec<CpuFrequency>, policy: &FrequencyPolicy)
    ensures
        views(final(out)@) == views(old(out)@) + policy_frequencies(policy@),
{
    let ghost start = views(out@);
    match (&policy.affected_cpus, read_i64(&policy.scaling_cur_freq)) {
        (Some(cpus), Some(kilohertz)) => {
            let hertz: u64 = if kilohertz < 0 {
                0
            } else {
                mul_wrapped(kilohertz as u64, 1000)
            };
            let chars: Vec<char> = characters(cpus.as_str());
            let names: Vec<&[char]> = words(chars.as_slice());
            let ghost seen = texts(names@);
            let mut i: usize = 0;
            assert(views(out@) =~= start + each_at(seen.take(0), hertz));
            while i < names.len()
                invariant
                    i <= names@.len(),
                    seen == texts(names@),
                    views(out@) == start + each_at(seen.take(i as int), hertz),
                decreases names@.len() - i,
            {
                let ghost before = views(out@);
                let frequency = CpuFrequency { cpu: owned(names[i]), hertz };
                let ghost found = frequency@;
                assert(seen[i as int] == names@[i as int]@);
                out.push(frequency);
                assert(views(out@) =~= before.push(found));
                assert(views(out@) =~= start + each_at(seen.take(i + 1), hertz));
                i += 1;
            }
            assert(seen.take(i as int) =~= seen);
        },
        _ => {
            assert(views(out@) =~= start + policy_frequencies(policy@));
        },
    }
}

/// The frequencies of the logical CPUs, sorted by the name of the CPU.
pub fn read_cpu_frequencies(policies: &Vec<FrequencyPolicy>) -> (r: Vec<CpuFrequency>)
    ensures
        views(r@) == arranged::<CpuFrequency>(frequencies_of(views(policies@))),
{
    let ghost seen = views(policies@);
    let mut r: Vec<CpuFrequency> = Vec::new();
    let mut i: usize = 0;
    assert(views(r@) =~= frequencies_of(seen.take(0)));
    while i < policies.len()
        invariant
            i <= policies@.len(),
            seen == views(policies@),
            views(r@) == frequencies_of(seen.take(i as int)),
        decreases policies@.len() - i,
    {
        assert(seen.take(i + 1).drop_last() =~= seen.take(i as int));
        assert(seen.take(i + 1).last() == policies@[i as int]@);
        push_frequencies(&mut r, &policies[i]);
        i += 1;
    }
    assert(seen.take(i as int) =~= seen);
    sort(r)
}

/// Sums add up.
pub proof fn law_sums_add_up(a: Seq<u64>, b: Seq<u64>, n: u64)
    ensures
        sum(a + b) == sum(a) + sum(b),
        sum(seq![n]) == n,
        sum(Seq::empty()) == 0,
    decreases b.len(),
{
    let none = Seq::<u64>::empty();
    assert(seq![n].drop_last() =~= none);
    assert(sum(none) == 0);
    if b.len() == 0 {
        assert(a + b =~= a);
    } else {
        law_sums_add_up(a, b.drop_last(), n);
        assert((a + b).drop_last() =~= a + b.drop_last());
    }
}

/// The first line of `stat` gives the times: the sum of its numbers in all, of which the
/// fourth and the fifth are idle.
pub proof fn law_cpu_times_read_back(text: Seq<char>, values: Seq<u64>)
    requires
        text_lines(text).len() > 0,
        text_lines(text)[0] == "cpu"@ + spaced(values.map_values(|n: u64| decimal(n as nat))),
        values.len() >= 5,
        sum(values) <= u64::MAX,
    ensures
        cpu_times_of(text) matches Ok((times, _)) && times.total == sum(values) && times.idle
            == values[3] + values[4],
{
    let words = values.map_values(|n: u64| decimal(n as nat));
    assert forall|i: int| 0 <= i < words.len() implies wordlike(#[trigger] words[i]) by {
        lemma_decimal_is_a_word(values[i] as nat);
    }
    reveal_strlit("cpu");
    law_words_read_back(words);
    law_numbers_read_back(values);
    assert(spaced(words)[0] == ' ');
    law_a_word_reads_back(Seq::empty(), "cpu"@, spaced(words));
    assert(Seq::<char>::empty() + "cpu"@ + spaced(words) =~= "cpu"@ + spaced(words));
    let fields = seq!["cpu"@] + words;
    assert(fields.skip(1) =~= words);
    assert(values =~= values.take(3) + seq![values[3]] + seq![values[4]] + values.skip(5));
    law_sums_add_up(values.take(3) + seq![values[3]] + seq![values[4]], values.skip(5), 0);
    law_sums_add_up(values.take(3) + seq![values[3]], seq![values[4]], values[4]);
    law_sums_add_up(values.take(3), seq![values[3]], values[3]);
}

/// Each line on a single CPU counts one more CPU, and other lines count none.
pub proof fn law_cpus_are_counted(lines: Seq<Seq<char>>, index: nat, rest: Seq<char>, c: char)
    requires
        !digit(c),
    ensures
        count_cpus(lines.push("cpu"@ + decimal(index) + rest)) == count_cpus(lines) + 1,
        count_cpus(lines.push("cpu"@.push(c) + rest)) == count_cpus(lines),
        count_cpus(lines.push("cpu"@)) == count_cpus(lines),
        !begins(rest, "cpu"@) ==> count_cpus(lines.push(rest)) == count_cpus(lines),
{
    let one = "cpu"@ + decimal(index) + rest;
    let other = "cpu"@.push(c) + rest;
    law_decimal_reads_back(index);
    assert(lines.push(one).drop_last() =~= lines);
    assert(lines.push(other).drop_last() =~= lines);
    assert(lines.push("cpu"@).drop_last() =~= lines);
    assert(lines.push(rest).drop_last() =~= lines);
    let n = "cpu"@.len() as int;
    assert(one.take(n) =~= "cpu"@);
    assert(one.skip(n)[0] == decimal(index)[0]);
    assert(digit(decimal(index)[0]));
    assert(other.take(n) =~= "cpu"@);
    assert(other.skip(n)[0] == c);
    assert("cpu"@.take(n) =~= "cpu"@);
}

/// What one counter is more than another is what has to be added to the other, and nothing
/// where it is not more.
pub proof fn law_excess_is_what_is_more(a: u64, b: u64)
    ensures
        a >= b ==> b + excess(a, b) == a,
        a <= b ==> excess(a, b) == 0,
{
}

/// A frequency policy says the frequency of each of its CPUs, a thousand hertz for each of
/// its kilohertz.
pub proof fn law_a_policy_reads_back(
    policies: Seq<FrequencyPolicyView>,
    cpus: Seq<char>,
    before: Seq<char>,
    kilohertz: nat,
    after: Seq<char>,
    i: int,
)
    requires
        blank(before),
        blank(after),
        kilohertz * 1000 <= u64::MAX,
        kilohertz <= i64::MAX,
        0 <= i < text_words(cpus).len(),
    ensures
        ({
            let policy = FrequencyPolicyView {
                affected_cpus: Some(cpus),
                scaling_cur_freq: Some(before + decimal(kilohertz) + after),
            };
            let known = frequencies_of(policies);
            let all = frequencies_of(policies.push(policy));
            &&& all.len() == known.len() + text_words(cpus).len()
            &&& all.take(known.len() as int) == known
            &&& all[known.len() + i].cpu == text_words(cpus)[i]
            &&& all[known.len() + i].hertz == kilohertz * 1000
        }),
{
    let policy = FrequencyPolicyView {
        affected_cpus: Some(cpus),
        scaling_cur_freq: Some(before + decimal(kilohertz) + after),
    };
    law_signed_numbers_read_back(before, kilohertz, after);
    assert(policies.push(policy).drop_last() =~= policies);
    let known = frequencies_of(policies);
    assert(frequencies_of(policies.push(policy)).take(known.len() as int) =~= known);
}

/// The frequencies of policies are those of each of them.
pub proof fn law_frequencies_of_both(a: Seq<FrequencyPolicyView>, b: Seq<FrequencyPolicyView>)
    ensures
        frequencies_of(a + b) == frequencies_of(a) + frequencies_of(b),
    decreases b.len(),
{
    if b.len() == 0 {
        assert(a + b =~= a);
        assert(frequencies_of(a) + frequencies_of(b) =~= frequencies_of(a));
    } else {
        law_frequencies_of_both(a, b.drop_last());
        assert((a + b).drop_last() =~= a + b.drop_last());
        assert((a + b).last() == b.last());
        assert(frequencies_of(a + b) =~= frequencies_of(a) + frequencies_of(b));
    }
}

/// Frequencies stand by the names of their CPUs.
pub proof fn law_frequencies_stand_by_cpu(policies: Seq<FrequencyPolicyView>, i: int, j: int)
    requires
        0 <= i <= j < frequencies_of(policies).len(),
    ensures
        ({
            let r = arranged::<CpuFrequency>(frequencies_of(policies));
            &&& r.to_multiset() == frequencies_of(policies).to_multiset()
            &&& r.len() == frequencies_of(policies).len()
            &&& text_le(r[i].cpu, r[j].cpu)
        }),
{
    let all = frequencies_of(policies);
    let r = arranged::<CpuFrequency>(all);
    law_arranged_is_sorted::<CpuFrequency>(all);
    r.to_multiset_ensures();
    all.to_multiset_ensures();
    assert(CpuFrequency::le(r[i], r[j]));
}

/// What the CPU spent between two readings is the difference of its counters, of which
/// what it did not idle was busy.
pub proof fn law_usage_is_the_difference(a: CpuTimes, b: CpuTimes)
    requires
        a.total <= b.total,
        a.idle <= b.idle,
        b.idle - a.idle <= b.total - a.total,
    ensures
        excess(b.total, a.total) == b.total - a.total,
        excess(excess(b.total, a.total), excess(b.idle, a.idle)) + (b.idle - a.idle) == b.total
            - a.total,
{
}

/// Four times are enough, of which the fourth is idle; fewer are an invalid line, and a
/// text without lines has none.
pub proof fn law_four_times_are_enough(text: Seq<char>, values: Seq<u64>)
    requires
        text_lines(text).len() > 0,
        values.len() <= 4,
        text_lines(text)[0] == "cpu"@ + spaced(values.map_values(|n: u64| decimal(n as nat))),
        sum(values) <= u64::MAX,
    ensures
        values.len() == 4 ==> (cpu_times_of(text) matches Ok((times, _)) && times.total == sum(
            values,
        ) && times.idle == values[3]),
        values.len() < 4 ==> cpu_times_of(text) == Err::<(CpuTimes, nat), CpuError>(
            CpuError::Invalid,
        ),
        cpu_times_of(Seq::empty()) == Err::<(CpuTimes, nat), CpuError>(CpuError::Missing),
{
    let none = Seq::<char>::empty();
    let words = values.map_values(|n: u64| decimal(n as nat));
    assert forall|i: int| 0 <= i < words.len() implies wordlike(#[trigger] words[i]) by {
        lemma_decimal_is_a_word(values[i] as nat);
    }
    reveal_strlit("cpu");
    law_words_read_back(words);
    law_numbers_read_back(values);
    if values.len() > 0 {
        assert(spaced(words)[0] == ' ');
    }
    law_a_word_reads_back(none, "cpu"@, spaced(words));
    assert(none + "cpu"@ + spaced(words) =~= "cpu"@ + spaced(words));
    let fields = seq!["cpu"@] + words;
    assert(fields.skip(1) =~= words);
    assert(text_lines(none).len() == 0);
}

/// What is said of an error tells whether the line is missing or invalid.
pub proof fn law_a_complaint_tells_what_is_wrong()
    ensures
        begins(CpuError::Missing.text(), "missing"@),
        begins(CpuError::Invalid.text(), "invalid"@),
{
    reveal_strlit("missing aggregate CPU line");
    reveal_strlit("invalid aggregate CPU line");
    reveal_strlit("missing");
    reveal_strlit("invalid");
    assert(CpuError::Missing.text().take(7) =~= "missing"@);
    assert(CpuError::Invalid.text().take(7) =~= "invalid"@);
}

} // verus!
