//! Network interfaces and the traffic of processes.

use crate::number::{
    add_wrapped, decimal, law_decimal_reads_back, law_numbers_read_back, lemma_decimal_is_a_word,
    lemma_wrapped_sum, numbers, parse_numbers, parse_u32, parse_u64, parsed_u32, parsed_u64,
    wrapped,
};
use crate::order::{
    arranged, law_arranged_is_sorted, law_arranging_follows_the_order, lemma_text_total,
    lemma_text_transitive, sort, text_at_most, text_le, Ranked,
};
use crate::snapshot::{NetworkInterface, NetworkInterfaceView};
use crate::text::{
    begins, blank, characters, complete, cut, equals, is_named, law_a_cut_parts_a_text,
    law_one_line_more, law_trimming_takes_the_blanks, law_words_read_back, lemma_spaced_is_one_line,
    lines, named, one_line, owned, spaced, split_once, starts_with, text_lines, text_words, texts,
    trim, trimmed, views, whitespace, wordlike, words,
};
use std::collections::HashMap;
use vstd::prelude::*;

verus! {

/// Interfaces are ordered by name.
impl Ranked for NetworkInterface {
    open spec fn le(a: NetworkInterfaceView, b: NetworkInterfaceView) -> bool {
        text_le(a.name, b.name)
    }

    fn at_most(&self, other: &Self) -> (r: bool) {
        text_at_most(self.name.as_str(), other.name.as_str())
    }

    proof fn total(a: NetworkInterfaceView, b: NetworkInterfaceView) {
        lemma_text_total(a.name, b.name, 0);
    }

    proof fn transitive(a: NetworkInterfaceView, b: NetworkInterfaceView, c: NetworkInterfaceView) {
        lemma_text_transitive(a.name, b.name, c.name, 0);
    }
}

/// The number at a position, or zero.
pub open spec fn nth_or_zero(values: Seq<u64>, n: int) -> u64 {
    if n < values.len() {
        values[n]
    } else {
        0
    }
}

/// What a line of the kernel's `net/dev` says of an interface: its name before
/// the colon, and behind it what it received as the first number and sent as the
/// ninth. The ends of container links are passed over.
pub open spec fn interface_of(line: Seq<char>) -> Option<NetworkInterfaceView> {
    match cut(line, ':') {
        Some((name, fields)) => {
            let name = trimmed(name);
            if name.len() == 0 || begins(name, "veth"@) {
                None
            } else {
                let values = numbers(text_words(fields));
                Some(
                    NetworkInterfaceView {
                        name,
                        kind: Seq::empty(),
                        receive_bytes: nth_or_zero(values, 0),
                        transmit_bytes: nth_or_zero(values, 8),
                    },
                )
            }
        },
        None => None,
    }
}

/// The interfaces on some lines, in the order of the lines.
pub open spec fn interfaces_on(lines: Seq<Seq<char>>) -> Seq<NetworkInterfaceView>
    decreases lines.len(),
{
    if lines.len() == 0 {
        Seq::empty()
    } else {
        let before = interfaces_on(lines.drop_last());
        match interface_of(lines.last()) {
            Some(interface) => before.push(interface),
            None => before,
        }
    }
}

/// What the kernel's `net/dev` says, sorted by name. Where a name repeats, the
/// interfaces stay in the order of the lines.
pub open spec fn net_dev_of(input: Seq<char>) -> Seq<NetworkInterfaceView> {
    arranged::<NetworkInterface>(interfaces_on(text_lines(input)))
}

fn nth(values: &Vec<u64>, n: usize) -> (r: u64)
    ensures
        r == nth_or_zero(values@, n as int),
{
    if n < values.len() {
        values[n]
    } else {
        0
    }
}

/// Reads the interfaces from the kernel's `net/dev`, sorted by name.
///
/// Every interface gets its own series so that a counter reset stays local to
/// it. Summing them into one number made a container teardown look like a
/// multi-gigabyte burst: the total dropped with the departing interface, and
/// Prometheus reads a falling counter as a restart. Veth pairs are skipped
/// because each container lifetime would otherwise leave a dead series behind.
pub fn parse_net_dev(input: &str) -> (r: Vec<NetworkInterface>)
    ensures
        views(r@) == net_dev_of(input@),
{
    let chars: Vec<char> = characters(input);
    let all: Vec<&[char]> = lines(chars.as_slice());
    let ghost seen = texts(all@);
    let mut r: Vec<NetworkInterface> = Vec::new();
    let mut i: usize = 0;
    assert(seen.take(0) =~= Seq::<Seq<char>>::empty());
    assert(views(r@) =~= Seq::<NetworkInterfaceView>::empty());
    while i < all.len()
        invariant
            i <= all@.len(),
            seen == texts(all@),
            views(r@) == interfaces_on(seen.take(i as int)),
        decreases all@.len() - i,
    {
        assert(seen.take(i + 1).drop_last() =~= seen.take(i as int));
        assert(seen.take(i + 1).last() == all@[i as int]@);
        let ghost before = views(r@);
        if let Some((name, fields)) = split_once(all[i], ':') {
            let name: &[char] = trim(name);
            if name.len() > 0 && !starts_with(name, "veth") {
                let fields: Vec<&[char]> = words(fields);
                assert(texts(fields@).skip(0) =~= texts(fields@));
                let values: Vec<u64> = parse_numbers(&fields, 0);
                let interface = NetworkInterface {
                    name: owned(name),
                    kind: String::new(),
                    receive_bytes: nth(&values, 0),
                    transmit_bytes: nth(&values, 8),
                };
                let ghost found = interface@;
                r.push(interface);
                assert(views(r@) =~= before.push(found));
            }
        }
        i += 1;
    }
    assert(seen.take(i as int) =~= seen);
    sort(r)
}

/// No interface is nameless or the end of a container link.
pub proof fn law_no_container_links(lines: Seq<Seq<char>>, i: int)
    requires
        0 <= i < interfaces_on(lines).len(),
    ensures
        interfaces_on(lines)[i].name.len() > 0,
        !begins(interfaces_on(lines)[i].name, "veth"@),
    decreases lines.len(),
{
    if lines.len() > 0 {
        if i < interfaces_on(lines.drop_last()).len() {
            law_no_container_links(lines.drop_last(), i);
        }
    }
}

/// The kind of an interface, by the names of those that a device backs.
pub open spec fn kind_of(backed: Seq<String>, name: Seq<char>) -> Seq<char> {
    if named(backed, name) {
        "physical"@
    } else {
        "virtual"@
    }
}

/// An interface with its kind.
pub open spec fn with_kind(
    backed: Seq<String>,
    interface: NetworkInterfaceView,
) -> NetworkInterfaceView {
    NetworkInterfaceView { kind: kind_of(backed, interface.name), ..interface }
}

/// Interfaces with their kinds.
pub open spec fn with_kinds(
    backed: Seq<String>,
    interfaces: Seq<NetworkInterfaceView>,
) -> Seq<NetworkInterfaceView> {
    Seq::new(interfaces.len(), |i: int| with_kind(backed, interfaces[i]))
}

/// What the kernel's `net/dev` says, with the kinds of the interfaces.
pub open spec fn networks_of(input: Seq<char>, backed: Seq<String>) -> Seq<NetworkInterfaceView> {
    with_kinds(backed, net_dev_of(input))
}

/// Reads the interfaces and their kinds. `backed` holds the names of the
/// interfaces that the kernel backs with a device.
pub fn read_networks(input: &str, backed: &Vec<String>) -> (r: Vec<NetworkInterface>)
    ensures
        views(r@) == networks_of(input@, backed@),
{
    let found: Vec<NetworkInterface> = parse_net_dev(input);
    let ghost plain = views(found@);
    let mut r: Vec<NetworkInterface> = Vec::new();
    let mut i: usize = 0;
    assert(views(r@) =~= with_kinds(backed@, plain.take(0)));
    while i < found.len()
        invariant
            i <= found@.len(),
            plain == views(found@),
            views(r@) == with_kinds(backed@, plain.take(i as int)),
        decreases found@.len() - i,
    {
        let interface: &NetworkInterface = &found[i];
        let ghost done = views(r@);
        assert(plain[i as int] == interface@);
        let kind: String = if is_named(backed, interface.name.as_str()) {
            "physical".to_owned()
        } else {
            "virtual".to_owned()
        };
        let next = NetworkInterface {
            name: interface.name.clone(),
            kind,
            receive_bytes: interface.receive_bytes,
            transmit_bytes: interface.transmit_bytes,
        };
        let ghost seen = next@;
        r.push(next);
        assert(views(r@) =~= done.push(seen));
        assert(views(r@) =~= with_kinds(backed@, plain.take(i + 1)));
        i += 1;
    }
    proof {
        assert(plain.take(i as int) =~= plain);
    }
    r
}

/// The interfaces with kinds are those without: position by position an interface
/// has the name and the counters that it had, and it is physical just if a device
/// backs it, and virtual otherwise.
pub proof fn law_kinds_change_nothing_else(input: Seq<char>, backed: Seq<String>, i: int)
    requires
        0 <= i < net_dev_of(input).len(),
    ensures
        networks_of(input, backed).len() == net_dev_of(input).len(),
        networks_of(input, backed)[i].name == net_dev_of(input)[i].name,
        networks_of(input, backed)[i].receive_bytes == net_dev_of(input)[i].receive_bytes,
        networks_of(input, backed)[i].transmit_bytes == net_dev_of(input)[i].transmit_bytes,
        networks_of(input, backed)[i].kind == "physical"@ <==> named(
            backed,
            net_dev_of(input)[i].name,
        ),
        networks_of(input, backed)[i].kind == "virtual"@ <==> !named(
            backed,
            net_dev_of(input)[i].name,
        ),
{
    reveal_strlit("physical");
    reveal_strlit("virtual");
    assert("physical"@[0] != "virtual"@[0]);
}

/// Interfaces with kinds stand in the order of those without, also where a name
/// repeats.
pub proof fn law_kinds_keep_the_order(backed: Seq<String>, interfaces: Seq<NetworkInterfaceView>)
    ensures
        arranged::<NetworkInterface>(with_kinds(backed, interfaces)) == with_kinds(
            backed,
            arranged::<NetworkInterface>(interfaces),
        ),
{
    let f = |interface: NetworkInterfaceView| with_kind(backed, interface);
    let s = arranged::<NetworkInterface>(interfaces);
    assert(with_kinds(backed, interfaces) =~= interfaces.map_values(f));
    assert(with_kinds(backed, s) =~= s.map_values(f));
    law_arranging_follows_the_order::<NetworkInterface, NetworkInterface>(interfaces, f);
}

/// What the physical interfaces received, in all.
pub open spec fn physical_received(interfaces: Seq<NetworkInterfaceView>) -> nat
    decreases interfaces.len(),
{
    if interfaces.len() == 0 {
        0
    } else {
        let before = physical_received(interfaces.drop_last());
        if interfaces.last().kind == "physical"@ {
            before + interfaces.last().receive_bytes as nat
        } else {
            before
        }
    }
}

/// What the physical interfaces sent, in all.
pub open spec fn physical_sent(interfaces: Seq<NetworkInterfaceView>) -> nat
    decreases interfaces.len(),
{
    if interfaces.len() == 0 {
        0
    } else {
        let before = physical_sent(interfaces.drop_last());
        if interfaces.last().kind == "physical"@ {
            before + interfaces.last().transmit_bytes as nat
        } else {
            before
        }
    }
}

/// What the physical interfaces received and sent. Virtual ones carry copies of
/// the same traffic and do not count.
pub fn physical_totals(interfaces: &Vec<NetworkInterface>) -> (r: (u64, u64))
    ensures
        r.0 == wrapped(physical_received(views(interfaces@))),
        r.1 == wrapped(physical_sent(views(interfaces@))),
{
    let ghost seen = views(interfaces@);
    let mut receive: u64 = 0;
    let mut transmit: u64 = 0;
    let mut i: usize = 0;
    while i < interfaces.len()
        invariant
            i <= interfaces@.len(),
            seen == views(interfaces@),
            receive == wrapped(physical_received(seen.take(i as int))),
            transmit == wrapped(physical_sent(seen.take(i as int))),
        decreases interfaces@.len() - i,
    {
        let interface: &NetworkInterface = &interfaces[i];
        assert(seen.take(i + 1).drop_last() =~= seen.take(i as int));
        assert(seen.take(i + 1).last() == interface@);
        if equals(characters(interface.kind.as_str()).as_slice(), "physical") {
            proof {
                lemma_wrapped_sum(
                    physical_received(seen.take(i as int)),
                    interface.receive_bytes as nat,
                );
                lemma_wrapped_sum(
                    physical_sent(seen.take(i as int)),
                    interface.transmit_bytes as nat,
                );
            }
            receive = add_wrapped(receive, interface.receive_bytes);
            transmit = add_wrapped(transmit, interface.transmit_bytes);
        }
        i += 1;
    }
    assert(seen.take(i as int) =~= seen);
    (receive, transmit)
}

/// A virtual interface adds nothing to the totals, wherever it stands.
pub proof fn law_virtual_interfaces_do_not_count(
    before: Seq<NetworkInterfaceView>,
    interface: NetworkInterfaceView,
    after: Seq<NetworkInterfaceView>,
)
    requires
        interface.kind != "physical"@,
    ensures
        physical_received(before.push(interface) + after) == physical_received(before + after),
        physical_sent(before.push(interface) + after) == physical_sent(before + after),
    decreases after.len(),
{
    let with_it = before.push(interface) + after;
    let without_it = before + after;
    if after.len() == 0 {
        assert(with_it.drop_last() =~= before);
        assert(without_it =~= before);
    } else {
        law_virtual_interfaces_do_not_count(before, interface, after.drop_last());
        assert(with_it.drop_last() =~= before.push(interface) + after.drop_last());
        assert(without_it.drop_last() =~= before + after.drop_last());
    }
}

/// What a line of the process traffic table says: a process id, and the bytes
/// that the process received and sent.
pub open spec fn traffic_entry(line: Seq<char>) -> Option<(u32, (u64, u64))> {
    let fields = text_words(line);
    if fields.len() < 3 {
        None
    } else {
        match (parsed_u32(fields[0]), parsed_u64(fields[1]), parsed_u64(fields[2])) {
            (Some(pid), Some(receive), Some(transmit)) => Some((pid, (receive, transmit))),
            _ => None,
        }
    }
}

/// What some lines of the table say. Of lines on one process the last counts.
pub open spec fn traffic_on(lines: Seq<Seq<char>>) -> Map<u32, (u64, u64)>
    decreases lines.len(),
{
    if lines.len() == 0 {
        Map::empty()
    } else {
        let before = traffic_on(lines.drop_last());
        match traffic_entry(lines.last()) {
            Some((pid, bytes)) => before.insert(pid, bytes),
            None => before,
        }
    }
}

fn read_traffic_entry(line: &[char]) -> (r: Option<(u32, (u64, u64))>)
    ensures
        r == traffic_entry(line@),
{
    let fields: Vec<&[char]> = words(line);
    let ghost seen = texts(fields@);
    if fields.len() < 3 {
        return None;
    }
    assert(seen[0] == fields@[0]@ && seen[1] == fields@[1]@ && seen[2] == fields@[2]@);
    match (parse_u32(fields[0]), parse_u64(fields[1]), parse_u64(fields[2])) {
        (Some(pid), Some(receive), Some(transmit)) => Some((pid, (receive, transmit))),
        _ => None,
    }
}

/// Reads the table of the bytes that each process received and sent.
pub fn parse_process_network(input: &str) -> (r: HashMap<u32, (u64, u64)>)
    ensures
        r@ == traffic_on(text_lines(input@)),
{
    broadcast use vstd::std_specs::hash::group_hash_axioms;

    let chars: Vec<char> = characters(input);
    let all: Vec<&[char]> = lines(chars.as_slice());
    let ghost seen = texts(all@);
    let mut r: HashMap<u32, (u64, u64)> = HashMap::new();
    let mut i: usize = 0;
    assert(seen.take(0) =~= Seq::<Seq<char>>::empty());
    while i < all.len()
        invariant
            i <= all@.len(),
            seen == texts(all@),
            r@ == traffic_on(seen.take(i as int)),
        decreases all@.len() - i,
    {
        assert(seen.take(i + 1).drop_last() =~= seen.take(i as int));
        assert(seen.take(i + 1).last() == all@[i as int]@);
        if let Some((pid, bytes)) = read_traffic_entry(all[i]) {
            r.insert(pid, bytes);
        }
        i += 1;
    }
    assert(seen.take(i as int) =~= seen);
    r
}

/// A line of `net/dev` adds one interface, with the name before the colon, what it
/// received as the first number behind it, and what it sent as the ninth; all others stay.
pub proof fn law_an_interface_line_reads_back(
    text: Seq<char>,
    blanks: Seq<char>,
    name: Seq<char>,
    values: Seq<u64>,
)
    requires
        complete(text),
        blank(blanks),
        one_line(blanks),
        wordlike(name),
        forall|i: int| 0 <= i < name.len() ==> #[trigger] name[i] != ':',
        !begins(name, "veth"@),
        values.len() >= 9,
    ensures
        ({
            let line = (blanks + name).push(':') + spaced(
                values.map_values(|n: u64| decimal(n as nat)),
            );
            net_dev_of(text + line.push('\n')).to_multiset() == net_dev_of(
                text,
            ).to_multiset().insert(
                NetworkInterfaceView {
                    name,
                    kind: Seq::empty(),
                    receive_bytes: values[0],
                    transmit_bytes: values[8],
                },
            )
        }),
{
    let words = values.map_values(|n: u64| decimal(n as nat));
    let line = (blanks + name).push(':') + spaced(words);
    let found = NetworkInterfaceView {
        name,
        kind: Seq::empty(),
        receive_bytes: values[0],
        transmit_bytes: values[8],
    };
    assert forall|i: int| 0 <= i < words.len() implies wordlike(#[trigger] words[i]) by {
        lemma_decimal_is_a_word(values[i] as nat);
    }
    law_words_read_back(words);
    law_numbers_read_back(values);
    lemma_spaced_is_one_line(words);
    let label = blanks + name;
    assert forall|i: int| 0 <= i < label.len() implies #[trigger] label[i] != ':' && label[i]
        != '\n' by {
        if i < blanks.len() {
            assert(blanks[i] != '\n' && whitespace(blanks[i]));
            assert(label[i] == blanks[i]);
        } else {
            assert(name[i - blanks.len()] != ':' && !whitespace(name[i - blanks.len()]));
            assert(label[i] == name[i - blanks.len()]);
        }
    }
    law_a_cut_parts_a_text(label, ':', spaced(words));
    assert(!whitespace(name[0]) && !whitespace(name[name.len() - 1]));
    law_trimming_takes_the_blanks(blanks, name, Seq::empty());
    assert(blanks + name + Seq::<char>::empty() =~= label);
    assert(interface_of(line) == Some(found));
    assert forall|i: int| 0 <= i < line.len() implies #[trigger] line[i] != '\n' by {
        if i < label.len() {
            assert(line[i] == label[i]);
        } else if i > label.len() {
            assert(line[i] == spaced(words)[i - label.len() - 1]);
        }
    }
    assert(line.last() == spaced(words).last());
    law_one_line_more(text, line);
    let before = interfaces_on(text_lines(text));
    let all = text_lines(text).push(line);
    assert(all.drop_last() =~= text_lines(text));
    assert(interfaces_on(all) == before.push(found));
    law_arranged_is_sorted::<NetworkInterface>(before);
    law_arranged_is_sorted::<NetworkInterface>(before.push(found));
    vstd::seq_lib::to_multiset_build(before, found);
}

/// The interfaces stand in the order of their names.
pub proof fn law_interfaces_stand_by_name(input: Seq<char>, backed: Seq<String>, i: int, j: int)
    requires
        0 <= i <= j < networks_of(input, backed).len(),
    ensures
        text_le(networks_of(input, backed)[i].name, networks_of(input, backed)[j].name),
{
    law_arranged_is_sorted::<NetworkInterface>(interfaces_on(text_lines(input)));
    assert(NetworkInterface::le(net_dev_of(input)[i], net_dev_of(input)[j]));
}

/// What the physical interfaces received and sent is added up, each interface in full.
pub proof fn law_physical_interfaces_add_up(
    a: Seq<NetworkInterfaceView>,
    b: Seq<NetworkInterfaceView>,
    interface: NetworkInterfaceView,
)
    ensures
        physical_received(a + b) == physical_received(a) + physical_received(b),
        physical_sent(a + b) == physical_sent(a) + physical_sent(b),
        interface.kind == "physical"@ ==> physical_received(seq![interface])
            == interface.receive_bytes && physical_sent(seq![interface])
            == interface.transmit_bytes,
        interface.kind != "physical"@ ==> physical_received(seq![interface]) == 0
            && physical_sent(seq![interface]) == 0,
    decreases b.len(),
{
    let none = Seq::<NetworkInterfaceView>::empty();
    assert(seq![interface].drop_last() =~= none);
    assert(physical_received(none) == 0 && physical_sent(none) == 0);
    if b.len() == 0 {
        assert(a + b =~= a);
    } else {
        law_physical_interfaces_add_up(a, b.drop_last(), interface);
        assert((a + b).drop_last() =~= a + b.drop_last());
        assert((a + b).last() == b.last());
    }
}

/// A line of the traffic table says what a process received as its second word and sent
/// as its third, in place of what an earlier line said of it.
pub proof fn law_a_traffic_line_reads_back(text: Seq<char>, pid: u32, receive: u64, transmit: u64)
    requires
        complete(text),
    ensures
        ({
            let line = spaced(
                seq![decimal(pid as nat), decimal(receive as nat), decimal(transmit as nat)],
            );
            traffic_on(text_lines(text + line.push('\n'))) == traffic_on(text_lines(text)).insert(
                pid,
                (receive, transmit),
            )
        }),
{
    let words = seq![decimal(pid as nat), decimal(receive as nat), decimal(transmit as nat)];
    let line = spaced(words);
    lemma_decimal_is_a_word(pid as nat);
    lemma_decimal_is_a_word(receive as nat);
    lemma_decimal_is_a_word(transmit as nat);
    law_decimal_reads_back(receive as nat);
    law_decimal_reads_back(transmit as nat);
    assert forall|i: int| 0 <= i < words.len() implies wordlike(#[trigger] words[i]) by {}
    law_words_read_back(words);
    lemma_spaced_is_one_line(words);
    law_one_line_more(text, line);
    let all = text_lines(text).push(line);
    assert(all.drop_last() =~= text_lines(text));
}

/// An interface that a device backs is physical, and any other is virtual.
pub proof fn law_backed_interfaces_are_physical(
    input: Seq<char>,
    backed: Seq<String>,
    i: int,
    k: int,
)
    requires
        0 <= i < networks_of(input, backed).len(),
    ensures
        0 <= k < backed.len() && backed[k]@ == networks_of(input, backed)[i].name ==> networks_of(
            input,
            backed,
        )[i].kind == "physical"@,
        (forall|j: int|
            0 <= j < backed.len() ==> (#[trigger] backed[j])@ != networks_of(input, backed)[i].name)
            ==> networks_of(input, backed)[i].kind == "virtual"@,
{
}

} // verus!
