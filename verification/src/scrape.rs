//! What a reader takes an exposition for: the samples under each name, and the kinds
//! that are declared.

use crate::list::{kept, lemma_kept_both};
use crate::metrics::{
    bare_label_of, both, escaped, escaped_char, help_of, joined, label_end, label_of,
    law_label_reads_back, law_label_stays_in_its_quotes, plain_sample, sample_of, type_of,
    unescaped,
};
use crate::number::{decimal, law_decimal_reads_back};
use crate::text::{
    begins, complete, digit, law_a_line_reads_back, law_lines_of_both, lemma_position, one_line,
    position, text_lines, whitespace,
};
use vstd::prelude::*;

verus! {

/// A sample: the labels with their values, and the value.
#[verifier::ext_equal]
pub struct Sampled {
    pub labels: Seq<(Seq<char>, Seq<char>)>,
    pub value: Seq<char>,
}

/// The position behind a name: of the first brace or blank, or the length.
pub open spec fn name_end(line: Seq<char>, at: int) -> int
    decreases line.len() - at,
{
    if at >= line.len() {
        line.len() as int
    } else if line[at] == '{' || line[at] == ' ' {
        at
    } else {
        name_end(line, at + 1)
    }
}

/// A label value ends behind its beginning and within the line.
pub proof fn lemma_label_end(s: Seq<char>, at: int)
    requires
        0 <= at <= s.len(),
    ensures
        at <= label_end(s, at) <= s.len(),
    decreases s.len() - at,
{
    if at < s.len() {
        if s[at] == '\\' {
            if at + 2 <= s.len() {
                lemma_label_end(s, at + 2);
            } else {
                assert(label_end(s, at + 2) == s.len());
            }
        } else if s[at] != '"' {
            lemma_label_end(s, at + 1);
        }
    }
}

/// The labels that stand on a line from `at` on, and the position behind the last.
pub open spec fn labels_at(line: Seq<char>, at: int) -> (Seq<(Seq<char>, Seq<char>)>, int)
    decreases line.len() - at,
{
    let sign = position(line, '=', at);
    if at < 0 || at >= line.len() || sign + 1 >= line.len() {
        (Seq::empty(), line.len() as int)
    } else {
        let end = label_end(line, sign + 2);
        let first = (line.subrange(at, sign), unescaped(line.subrange(sign + 2, end)));
        proof {
            lemma_position(line, '=', at);
            lemma_label_end(line, sign + 2);
        }
        if end + 1 < line.len() && line[end + 1] == ',' {
            let (rest, stop) = labels_at(line, end + 2);
            (seq![first] + rest, stop)
        } else {
            (seq![first], end + 1)
        }
    }
}

/// The name and the sample on a line. There is none on a line of remarks.
pub open spec fn sample_on(line: Seq<char>) -> Option<(Seq<char>, Sampled)> {
    let end = name_end(line, 0);
    if line.len() == 0 || line[0] == '#' || end >= line.len() {
        None
    } else if line[end] == ' ' {
        Some((line.take(end), Sampled { labels: Seq::empty(), value: line.skip(end + 1) }))
    } else {
        let (labels, stop) = labels_at(line, end + 1);
        if stop + 2 <= line.len() && line[stop] == '}' && line[stop + 1] == ' ' {
            Some((line.take(end), Sampled { labels, value: line.skip(stop + 2) }))
        } else {
            None
        }
    }
}

/// The kind that a line declares, and the name that it declares it of.
pub open spec fn kind_on(line: Seq<char>) -> Option<(Seq<char>, Seq<char>)> {
    if begins(line, "# TYPE "@) {
        let rest = line.skip("# TYPE "@.len() as int);
        let end = position(rest, ' ', 0);
        if end < rest.len() {
            Some((rest.take(end), rest.skip(end + 1)))
        } else {
            None
        }
    } else {
        None
    }
}

/// What stands on a line under a name.
pub open spec fn under<B>(
    name: Seq<char>,
    read: spec_fn(Seq<char>) -> Option<(Seq<char>, B)>,
) -> spec_fn(Seq<char>) -> Option<B> {
    |line: Seq<char>|
        match read(line) {
            Some((found, item)) => if found == name {
                Some(item)
            } else {
                None
            },
            None => None,
        }
}

/// What stands under a name in a text, line by line.
pub open spec fn found<B>(
    text: Seq<char>,
    name: Seq<char>,
    read: spec_fn(Seq<char>) -> Option<(Seq<char>, B)>,
) -> Seq<B> {
    kept(text_lines(text), under(name, read))
}

/// The samples under a name, in their order.
#[verifier::opaque]
pub open spec fn samples(text: Seq<char>, name: Seq<char>) -> Seq<Sampled> {
    found(text, name, |line: Seq<char>| sample_on(line))
}

/// The kinds that are declared of a name, in their order.
#[verifier::opaque]
pub open spec fn kinds(text: Seq<char>, name: Seq<char>) -> Seq<Seq<char>> {
    found(text, name, |line: Seq<char>| kind_on(line))
}

/// A character that may stand in the name of a metric or of a label.
pub open spec fn name_char(c: char) -> bool {
    'a' <= c <= 'z' || '0' <= c <= '9' || c == '_'
}

/// A text that may be the name of a metric or of a label.
#[verifier::opaque]
pub open spec fn is_name(s: Seq<char>) -> bool {
    s.len() > 0 && forall|i: int| 0 <= i < s.len() ==> name_char(#[trigger] s[i])
}

/// A text without white space.
pub open spec fn unbroken(s: Seq<char>) -> bool {
    forall|i: int| 0 <= i < s.len() ==> !whitespace(#[trigger] s[i])
}

/// A text that a label holds as it is.
pub open spec fn unescapable(s: Seq<char>) -> bool {
    forall|i: int|
        0 <= i < s.len() ==> #[trigger] s[i] != '\\' && s[i] != '\n' && s[i] != '"'
}

proof fn lemma_found_both<B>(
    a: Seq<char>,
    b: Seq<char>,
    name: Seq<char>,
    read: spec_fn(Seq<char>) -> Option<(Seq<char>, B)>,
)
    requires
        complete(a),
    ensures
        found(a + b, name, read) == found(a, name, read) + found(b, name, read),
{
    law_lines_of_both(a, b);
    lemma_kept_both(text_lines(a), text_lines(b), under(name, read));
}

/// The samples and the kinds of whole lines and what follows are those of both.
pub proof fn law_readings_of_both(a: Seq<char>, b: Seq<char>, name: Seq<char>)
    requires
        complete(a),
    ensures
        samples(a + b, name) == samples(a, name) + samples(b, name),
        kinds(a + b, name) == kinds(a, name) + kinds(b, name),
        complete(b) ==> complete(a + b),
{
    reveal(samples);
    reveal(kinds);
    lemma_found_both(a, b, name, |line: Seq<char>| sample_on(line));
    lemma_found_both(a, b, name, |line: Seq<char>| kind_on(line));
    if b.len() > 0 {
        assert((a + b).last() == b.last());
    } else {
        assert(a + b =~= a);
    }
}

proof fn lemma_found_line<B>(
    line: Seq<char>,
    name: Seq<char>,
    read: spec_fn(Seq<char>) -> Option<(Seq<char>, B)>,
)
    requires
        one_line(line),
    ensures
        found(line.push('\n'), name, read) == match under(name, read)(line) {
            Some(item) => seq![item],
            None => Seq::empty(),
        },
{
    law_a_line_reads_back(line);
    let lines = seq![line];
    let f = under(name, read);
    assert(lines.drop_last() =~= Seq::<Seq<char>>::empty());
    assert(kept(lines.drop_last(), f) =~= Seq::<B>::empty());
    assert(kept(lines, f) =~= match f(line) {
        Some(item) => seq![item],
        None => Seq::empty(),
    });
}

proof fn lemma_line(line: Seq<char>, name: Seq<char>)
    requires
        one_line(line),
    ensures
        complete(line.push('\n')),
        samples(line.push('\n'), name) == (match sample_on(line) {
            Some((found, sampled)) => if found == name {
                seq![sampled]
            } else {
                Seq::empty()
            },
            None => Seq::empty(),
        }),
        kinds(line.push('\n'), name) == (match kind_on(line) {
            Some((found, kind)) => if found == name {
                seq![kind]
            } else {
                Seq::empty()
            },
            None => Seq::empty(),
        }),
{
    reveal(samples);
    reveal(kinds);
    lemma_found_line(line, name, |line: Seq<char>| sample_on(line));
    lemma_found_line(line, name, |line: Seq<char>| kind_on(line));
}

proof fn lemma_name_end(line: Seq<char>, at: int, end: int)
    requires
        0 <= at <= end < line.len(),
        line[end] == '{' || line[end] == ' ',
        forall|i: int| at <= i < end ==> #[trigger] line[i] != '{' && line[i] != ' ',
    ensures
        name_end(line, at) == end,
    decreases end - at,
{
    if at < end {
        lemma_name_end(line, at + 1, end);
    }
}

/// A line that declares a kind is read as that, and as nothing else.
pub proof fn lemma_type(name: Seq<char>, kind: Seq<char>, wanted: Seq<char>)
    requires
        is_name(name),
        is_name(kind),
    ensures
        complete(type_of(name, kind)),
        samples(type_of(name, kind), wanted) == Seq::<Sampled>::empty(),
        kinds(type_of(name, kind), wanted) == if name == wanted {
            seq![kind]
        } else {
            Seq::empty()
        },
{
    reveal(is_name);
    reveal_strlit("# TYPE ");
    reveal_strlit(" ");
    reveal_strlit("\n");
    let lead = "# TYPE "@;
    let line = lead + name + " "@ + kind;
    assert(type_of(name, kind) =~= line.push('\n'));
    assert forall|i: int| 0 <= i < line.len() implies #[trigger] line[i] != '\n' by {
        if i >= 7 && i < 7 + name.len() {
            assert(name_char(name[i - 7]));
        } else if i > 7 + name.len() {
            assert(name_char(kind[i - 8 - name.len()]));
        }
    }
    assert(name_char(kind[kind.len() - 1]));
    assert(line.last() == kind[kind.len() - 1]);
    lemma_line(line, wanted);
    assert(line.take(7) =~= lead);
    let rest = line.skip(7);
    assert(rest =~= name + " "@ + kind);
    lemma_position(rest, ' ', 0);
    let end = position(rest, ' ', 0);
    assert(rest[name.len() as int] == ' ');
    assert(end == name.len()) by {
        if end < name.len() {
            assert(name_char(name[end]));
            assert(rest[end] == name[end]);
        }
    }
    assert(rest.take(end) =~= name);
    assert(rest.skip(end + 1) =~= kind);
    assert(line[0] == '#');
}

/// A line that says what a metric is holds no sample and declares nothing.
pub proof fn lemma_help(name: Seq<char>, help: Seq<char>, wanted: Seq<char>)
    requires
        is_name(name),
        one_line(help),
        help.len() > 0,
    ensures
        complete(help_of(name, help)),
        samples(help_of(name, help), wanted) == Seq::<Sampled>::empty(),
        kinds(help_of(name, help), wanted) == Seq::<Seq<char>>::empty(),
{
    reveal(is_name);
    reveal_strlit("# HELP ");
    reveal_strlit("# TYPE ");
    reveal_strlit(" ");
    reveal_strlit("\n");
    let lead = "# HELP "@;
    let line = lead + name + " "@ + help;
    assert(help_of(name, help) =~= line.push('\n'));
    assert forall|i: int| 0 <= i < line.len() implies #[trigger] line[i] != '\n' by {
        if i >= 7 && i < 7 + name.len() {
            assert(name_char(name[i - 7]));
        } else if i > 7 + name.len() {
            assert(help[i - 8 - name.len()] != '\n');
        }
    }
    assert(line.last() == help.last());
    lemma_line(line, wanted);
    assert(line[0] == '#');
    assert(line.take(7)[2] == 'H');
    assert("# TYPE "@[2] == 'T');
}

proof fn lemma_unbroken_last(value: Seq<char>)
    requires
        unbroken(value),
        value.len() > 0,
    ensures
        value.last() != '\r',
{
    assert(!whitespace(value[value.len() - 1]));
}

/// A sample without labels reads back.
pub proof fn lemma_plain(name: Seq<char>, value: Seq<char>, wanted: Seq<char>)
    requires
        is_name(name),
        unbroken(value),
    ensures
        complete(plain_sample(name, value)),
        samples(plain_sample(name, value), wanted) == if name == wanted {
            seq![Sampled { labels: Seq::empty(), value }]
        } else {
            Seq::empty()
        },
        kinds(plain_sample(name, value), wanted) == Seq::<Seq<char>>::empty(),
{
    reveal(is_name);
    reveal_strlit("# TYPE ");
    reveal_strlit(" ");
    reveal_strlit("\n");
    let line = name + " "@ + value;
    assert(plain_sample(name, value) =~= line.push('\n'));
    assert forall|i: int| 0 <= i < line.len() implies #[trigger] line[i] != '\n' by {
        if i < name.len() {
            assert(name_char(name[i]));
        } else if i > name.len() {
            assert(!whitespace(value[i - name.len() - 1]));
        }
    }
    if value.len() > 0 {
        lemma_unbroken_last(value);
        assert(line.last() == value.last());
    }
    lemma_line(line, wanted);
    assert(name_char(name[0]));
    assert(line[0] == name[0]);
    if begins(line, "# TYPE "@) {
        assert(line.take(7)[0] == line[0]);
    }
    assert forall|i: int| 0 <= i < name.len() implies #[trigger] line[i] != '{'
        && line[i] != ' ' by {
        assert(name_char(name[i]));
        assert(line[i] == name[i]);
    }
    lemma_name_end(line, 0, name.len() as int);
    assert(line.take(name.len() as int) =~= name);
    assert(line.skip(name.len() as int + 1) =~= value);
}

/// Some labels beside each other.
pub open spec fn label_list(pairs: Seq<(Seq<char>, Seq<char>)>) -> Seq<char>
    decreases pairs.len(),
{
    if pairs.len() == 0 {
        Seq::empty()
    } else if pairs.len() == 1 {
        label_of(pairs[0].0, pairs[0].1)
    } else {
        label_of(pairs[0].0, pairs[0].1) + ","@ + label_list(pairs.skip(1))
    }
}

/// Whether the labels have names.
pub open spec fn all_named(pairs: Seq<(Seq<char>, Seq<char>)>) -> bool {
    forall|i: int| 0 <= i < pairs.len() ==> is_name(#[trigger] pairs[i].0)
}

proof fn lemma_labels_at(before: Seq<char>, pairs: Seq<(Seq<char>, Seq<char>)>, after: Seq<char>)
    requires
        pairs.len() > 0,
        all_named(pairs),
    ensures
        labels_at(before + label_list(pairs) + seq!['}'] + after, before.len() as int) == (
            pairs,
            before.len() as int + label_list(pairs).len(),
        ),
    decreases pairs.len(),
{
    reveal(is_name);
    reveal_strlit("=\"");
    reveal_strlit("\"");
    reveal_strlit(",");
    let key = pairs[0].0;
    let value = pairs[0].1;
    let at = before.len() as int;
    let list = label_list(pairs);
    let line = before + list + seq!['}'] + after;
    assert(is_name(pairs[0].0));
    let tail = list.skip(label_of(key, value).len() as int);
    assert(list =~= label_of(key, value) + tail);
    let head = before + key + seq!['=', '"'];
    let rest = tail + seq!['}'] + after;
    assert(line =~= head + escaped(value) + seq!['"'] + rest);
    law_label_stays_in_its_quotes(head, value, rest);
    law_label_reads_back(value);
    let sign = at + key.len();
    lemma_position(line, '=', at);
    assert(line[sign] == '=');
    assert(position(line, '=', at) == sign) by {
        let p = position(line, '=', at);
        if p < sign {
            assert(name_char(key[p - at]));
            assert(line[p] == key[p - at]);
        }
    }
    let end = label_end(line, sign + 2);
    assert(end == head.len() + escaped(value).len());
    assert(line.subrange(at, sign) =~= key);
    assert(line.subrange(sign + 2, end) =~= escaped(value));
    assert(pairs[0] == (key, value));
    if pairs.len() == 1 {
        assert(tail =~= Seq::<char>::empty());
        assert(line[end + 1] == '}');
        assert(seq![(key, value)] =~= pairs);
        assert(end + 1 == at + list.len());
    } else {
        let next = before + label_of(key, value) + ","@;
        assert(tail =~= ","@ + label_list(pairs.skip(1)));
        assert(line[end + 1] == ',');
        assert forall|i: int| 0 <= i < pairs.skip(1).len() implies is_name(
            #[trigger] pairs.skip(1)[i].0,
        ) by {
            assert(pairs.skip(1)[i] == pairs[i + 1]);
            assert(is_name(pairs[i + 1].0));
        }
        lemma_labels_at(next, pairs.skip(1), after);
        assert(line =~= next + label_list(pairs.skip(1)) + seq!['}'] + after);
        assert(next.len() == end + 2);
        assert(seq![(key, value)] + pairs.skip(1) =~= pairs);
    }
}

proof fn lemma_list_is_one_line(pairs: Seq<(Seq<char>, Seq<char>)>)
    requires
        all_named(pairs),
    ensures
        forall|i: int| 0 <= i < label_list(pairs).len() ==> #[trigger] label_list(pairs)[i] != '\n',
    decreases pairs.len(),
{
    reveal(is_name);
    reveal_strlit("=\"");
    reveal_strlit("\"");
    reveal_strlit(",");
    if pairs.len() > 0 {
        let key = pairs[0].0;
        let value = pairs[0].1;
        assert(is_name(pairs[0].0));
        law_label_stays_in_its_quotes(Seq::empty(), value, Seq::empty());
        let first = label_of(key, value);
        assert forall|i: int| 0 <= i < first.len() implies #[trigger] first[i] != '\n' by {
            if i < key.len() {
                assert(name_char(key[i]));
            } else if i >= key.len() + 2 && i < first.len() - 1 {
                assert(escaped(value)[i - key.len() - 2] != '\n');
            }
        }
        if pairs.len() > 1 {
            let rest = pairs.skip(1);
            assert forall|i: int| 0 <= i < rest.len() implies is_name(#[trigger] rest[i].0) by {
                assert(rest[i] == pairs[i + 1]);
                assert(is_name(pairs[i + 1].0));
            }
            lemma_list_is_one_line(rest);
            let list = label_list(pairs);
            assert forall|i: int| 0 <= i < list.len() implies #[trigger] list[i] != '\n' by {
                if i < first.len() {
                    assert(list[i] == first[i]);
                } else if i > first.len() {
                    assert(list[i] == label_list(rest)[i - first.len() - 1]);
                }
            }
        }
    }
}

/// A sample with labels reads back.
pub proof fn lemma_sample(
    name: Seq<char>,
    pairs: Seq<(Seq<char>, Seq<char>)>,
    value: Seq<char>,
    wanted: Seq<char>,
)
    requires
        is_name(name),
        pairs.len() > 0,
        all_named(pairs),
        unbroken(value),
    ensures
        complete(sample_of(name, label_list(pairs), value)),
        samples(sample_of(name, label_list(pairs), value), wanted) == if name == wanted {
            seq![Sampled { labels: pairs, value }]
        } else {
            Seq::empty()
        },
        kinds(sample_of(name, label_list(pairs), value), wanted) == Seq::<Seq<char>>::empty(),
{
    reveal(is_name);
    reveal_strlit("# TYPE ");
    reveal_strlit("{");
    reveal_strlit("} ");
    reveal_strlit("\n");
    let list = label_list(pairs);
    let line = name + "{"@ + list + "} "@ + value;
    assert(sample_of(name, list, value) =~= line.push('\n'));
    lemma_list_is_one_line(pairs);
    let start = name.len() as int + 1;
    assert forall|i: int| 0 <= i < line.len() implies #[trigger] line[i] != '\n' by {
        if i < name.len() {
            assert(name_char(name[i]));
        } else if i >= start && i < start + list.len() {
            assert(line[i] == list[i - start]);
        } else if i >= start + list.len() + 2 {
            assert(!whitespace(value[i - start - list.len() - 2]));
        }
    }
    if value.len() > 0 {
        lemma_unbroken_last(value);
        assert(line.last() == value.last());
    }
    lemma_line(line, wanted);
    assert(name_char(name[0]));
    assert(line[0] == name[0]);
    if begins(line, "# TYPE "@) {
        assert(line.take(7)[0] == line[0]);
    }
    assert forall|i: int| 0 <= i < name.len() implies #[trigger] line[i] != '{'
        && line[i] != ' ' by {
        assert(name_char(name[i]));
        assert(line[i] == name[i]);
    }
    lemma_name_end(line, 0, name.len() as int);
    assert(line.take(name.len() as int) =~= name);
    let before = name + "{"@;
    let after = seq![' '] + value;
    lemma_labels_at(before, pairs, after);
    assert(line =~= before + list + seq!['}'] + after);
    let stop = start + list.len();
    assert(line[stop] == '}');
    assert(line[stop + 1] == ' ');
    assert(line.skip(stop + 2) =~= value);
}

proof fn lemma_unescapable(s: Seq<char>)
    requires
        unescapable(s),
    ensures
        escaped(s) == s,
    decreases s.len(),
{
    if s.len() > 0 {
        assert(escaped_char(s[0]) =~= seq![s[0]]);
        let rest = s.skip(1);
        assert forall|i: int| 0 <= i < rest.len() implies #[trigger] rest[i] != '\\' && rest[i]
            != '\n' && rest[i] != '"' by {
            assert(rest[i] == s[i + 1]);
        }
        lemma_unescapable(rest);
        assert(seq![s[0]] + rest =~= s);
    }
}

pub proof fn lemma_one_label(key: Seq<char>, value: Seq<char>)
    ensures
        label_of(key, value) == label_list(seq![(key, value)]),
{
}

pub proof fn lemma_two_labels(
    key: Seq<char>,
    value: Seq<char>,
    other: Seq<char>,
    another: Seq<char>,
)
    ensures
        both(label_of(key, value), label_of(other, another)) == label_list(
            seq![(key, value), (other, another)],
        ),
{
    let pairs = seq![(key, value), (other, another)];
    assert(pairs.skip(1) =~= seq![(other, another)]);
    lemma_one_label(other, another);
}

pub proof fn lemma_three_labels(a: (Seq<char>, Seq<char>), b: (Seq<char>, Seq<char>), c: (
    Seq<char>,
    Seq<char>,
))
    ensures
        both(both(label_of(a.0, a.1), label_of(b.0, b.1)), label_of(c.0, c.1)) == label_list(
            seq![a, b, c],
        ),
{
    let pairs = seq![a, b, c];
    assert(pairs.skip(1) =~= seq![b, c]);
    lemma_two_labels(b.0, b.1, c.0, c.1);
    assert(both(both(label_of(a.0, a.1), label_of(b.0, b.1)), label_of(c.0, c.1)) =~= label_of(
        a.0,
        a.1,
    ) + ","@ + both(label_of(b.0, b.1), label_of(c.0, c.1)));
}

pub proof fn lemma_bare_label(key: Seq<char>, value: Seq<char>)
    requires
        unescapable(value),
    ensures
        bare_label_of(key, value) == label_of(key, value),
{
    lemma_unescapable(value);
}

pub proof fn lemma_decimal_unbroken(n: nat)
    ensures
        unbroken(decimal(n)),
        unescapable(decimal(n)),
{
    law_decimal_reads_back(n);
    let s = decimal(n);
    assert forall|i: int| 0 <= i < s.len() implies !whitespace(#[trigger] s[i]) && s[i] != '\\'
        && s[i] != '\n' && s[i] != '"' by {
        assert(digit(s[i]));
    }
}

/// What is there, as a list.
pub open spec fn one(sampled: Option<Sampled>) -> Seq<Sampled> {
    match sampled {
        Some(sampled) => seq![sampled],
        None => Seq::empty(),
    }
}

/// What is read of texts one after the other, where each holds at most one sample
/// under a name and declares nothing.
pub proof fn lemma_joined<A>(
    items: Seq<A>,
    lines: spec_fn(A) -> Seq<char>,
    read: spec_fn(A) -> Option<Sampled>,
    name: Seq<char>,
)
    requires
        forall|i: int|
            0 <= i < items.len() ==> {
                &&& complete(lines(#[trigger] items[i]))
                &&& samples(lines(items[i]), name) == one(read(items[i]))
                &&& kinds(lines(items[i]), name) == Seq::<Seq<char>>::empty()
            },
    ensures
        complete(joined(items.map_values(lines))),
        samples(joined(items.map_values(lines)), name) == kept(items, read),
        kinds(joined(items.map_values(lines)), name) == Seq::<Seq<char>>::empty(),
    decreases items.len(),
{
    let parts = items.map_values(lines);
    if items.len() == 0 {
        lemma_nothing(name);
        assert(joined(parts) =~= Seq::<char>::empty());
        assert(kept(items, read) =~= Seq::<Sampled>::empty());
    } else {
        let fewer = items.drop_last();
        let last = items[items.len() - 1];
        assert forall|i: int| 0 <= i < fewer.len() implies {
            &&& complete(lines(#[trigger] fewer[i]))
            &&& samples(lines(fewer[i]), name) == one(read(fewer[i]))
            &&& kinds(lines(fewer[i]), name) == Seq::<Seq<char>>::empty()
        } by {
            assert(fewer[i] == items[i]);
        }
        lemma_joined(fewer, lines, read, name);
        assert(parts.drop_last() =~= fewer.map_values(lines));
        assert(parts.last() == lines(last));
        law_readings_of_both(joined(parts.drop_last()), lines(last), name);
        assert(samples(joined(parts), name) =~= kept(items, read));
        assert(kinds(joined(parts), name) =~= Seq::<Seq<char>>::empty());
    }
}

pub proof fn lemma_nothing(name: Seq<char>)
    ensures
        samples(Seq::<char>::empty(), name) == Seq::<Sampled>::empty(),
        kinds(Seq::<char>::empty(), name) == Seq::<Seq<char>>::empty(),
{
    reveal(samples);
    reveal(kinds);
    let none = Seq::<char>::empty();
    assert(text_lines(none) =~= Seq::<Seq<char>>::empty());
}

pub proof fn lemma_kept_all<A, B>(items: Seq<A>, f: spec_fn(A) -> Option<B>, g: spec_fn(A) -> B)
    requires
        forall|i: int| 0 <= i < items.len() ==> f(#[trigger] items[i]) == Some(g(items[i])),
    ensures
        kept(items, f) == items.map_values(g),
    decreases items.len(),
{
    if items.len() > 0 {
        let fewer = items.drop_last();
        assert forall|i: int| 0 <= i < fewer.len() implies f(#[trigger] fewer[i]) == Some(
            g(fewer[i]),
        ) by {
            assert(fewer[i] == items[i]);
        }
        lemma_kept_all(fewer, f, g);
        assert(items[items.len() - 1] == items.last());
    }
    assert(kept(items, f) =~= items.map_values(g));
}

pub proof fn lemma_kept_empty<A, B>(items: Seq<A>, f: spec_fn(A) -> Option<B>)
    requires
        forall|i: int| 0 <= i < items.len() ==> f(#[trigger] items[i]) is None,
    ensures
        kept(items, f) == Seq::<B>::empty(),
    decreases items.len(),
{
    if items.len() > 0 {
        let fewer = items.drop_last();
        assert forall|i: int| 0 <= i < fewer.len() implies f(#[trigger] fewer[i]) is None by {
            assert(fewer[i] == items[i]);
        }
        lemma_kept_empty(fewer, f);
        assert(items[items.len() - 1] == items.last());
    }
}

} // verus!
