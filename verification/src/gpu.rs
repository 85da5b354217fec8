//! Graphics: the load of the cards, and the contexts that processes hold on them.

use crate::cpu::excess;
use crate::list::{kept, lemma_kept_both, lemma_kept_next, lemma_kept_none};
use crate::memory::{first_count, law_a_count_reads_back, read_first_count};
use crate::number::{
    add_wrapped, decimal, law_signed_numbers_read_back, lemma_decimal_is_a_word, lemma_wrapped_sum,
    mul_wrapped, read_i64, signed_content, wrapped,
};
use crate::order::{
    arranged, law_arranged_is_sorted, lemma_text_total, lemma_text_transitive, sort, text_at_most,
    text_le, Ranked,
};
use crate::text::{
    after_prefix, begins, blank, blank_start, characters, complete, cut, digits, equals, is_digits,
    law_a_cut_parts_a_text, law_one_line_more, law_trimming_takes_the_blanks, lemma_blank_end,
    lemma_blank_start, lemma_blanks_end, lines, one_line, optional_text, owned, split_once,
    starts_with, strip_prefix, text_lines, texts, trim, trimmed, views, whitespace, wordlike,
};
use vstd::prelude::*;

verus! {

/// A card of the kernel's `drm` class: the name of its directory, the name of its
/// driver, and what its files hold where they could be read.
pub struct Card {
    pub name: String,
    pub driver: Option<String>,
    pub gpu_busy_percent: Option<String>,
    pub mem_info_vram_used: Option<String>,
    pub mem_info_vram_total: Option<String>,
}

/// The view of `Card`.
#[verifier::ext_equal]
pub struct CardView {
    pub name: Seq<char>,
    pub driver: Option<Seq<char>>,
    pub gpu_busy_percent: Option<Seq<char>>,
    pub mem_info_vram_used: Option<Seq<char>>,
    pub mem_info_vram_total: Option<Seq<char>>,
}

impl View for Card {
    type V = CardView;

    open spec fn view(&self) -> CardView {
        CardView {
            name: self.name@,
            driver: optional_text(self.driver),
            gpu_busy_percent: optional_text(self.gpu_busy_percent),
            mem_info_vram_used: optional_text(self.mem_info_vram_used),
            mem_info_vram_total: optional_text(self.mem_info_vram_total),
        }
    }
}

/// The load and the memory of a card.
#[derive(Clone, Debug)]
pub struct CardLoad {
    pub card: String,
    pub driver: String,
    pub busy_percent: i64,
    pub vram_used_bytes: u64,
    pub vram_total_bytes: u64,
}

/// The view of `CardLoad`.
#[verifier::ext_equal]
pub struct CardLoadView {
    pub card: Seq<char>,
    pub driver: Seq<char>,
    pub busy_percent: i64,
    pub vram_used_bytes: u64,
    pub vram_total_bytes: u64,
}

impl View for CardLoad {
    type V = CardLoadView;

    open spec fn view(&self) -> CardLoadView {
        CardLoadView {
            card: self.card@,
            driver: self.driver@,
            busy_percent: self.busy_percent,
            vram_used_bytes: self.vram_used_bytes,
            vram_total_bytes: self.vram_total_bytes,
        }
    }
}

/// Cards are ordered by name.
impl Ranked for CardLoad {
    open spec fn le(a: CardLoadView, b: CardLoadView) -> bool {
        text_le(a.card, b.card)
    }

    fn at_most(&self, other: &Self) -> (r: bool) {
        text_at_most(self.card.as_str(), other.card.as_str())
    }

    proof fn total(a: CardLoadView, b: CardLoadView) {
        lemma_text_total(a.card, b.card, 0);
    }

    proof fn transitive(a: CardLoadView, b: CardLoadView, c: CardLoadView) {
        lemma_text_transitive(a.card, b.card, c.card, 0);
    }
}

/// Whether an entry of the `drm` class is a card. There are also connectors, like
/// `card1-eDP-1`, and render nodes.
pub open spec fn names_a_card(name: Seq<char>) -> bool {
    match after_prefix(name, "card"@) {
        Some(index) => digits(index),
        None => false,
    }
}

/// Whether an entry of the `drm` class is a card.
pub fn is_card(name: &str) -> (r: bool)
    ensures
        r == names_a_card(name@),
{
    let chars: Vec<char> = characters(name);
    match strip_prefix(chars.as_slice(), "card") {
        Some(index) => is_digits(index),
        None => false,
    }
}

/// The number that a file holds where it is positive, or zero.
pub open spec fn amount_of(content: Option<Seq<char>>) -> u64 {
    match signed_content(content) {
        Some(n) => if n < 0 {
            0
        } else {
            n as u64
        },
        None => 0,
    }
}

fn read_amount(content: &Option<String>) -> (r: u64)
    ensures
        r == amount_of(optional_text(*content)),
{
    match read_i64(content) {
        Some(n) => if n < 0 {
            0
        } else {
            n as u64
        },
        None => 0,
    }
}

/// What a card says of its load. One that says nothing of it is passed over, since
/// that is not to be idle.
pub open spec fn load_of(card: CardView) -> Option<CardLoadView> {
    match signed_content(card.gpu_busy_percent) {
        Some(busy_percent) => if names_a_card(card.name) {
            Some(
                CardLoadView {
                    card: card.name,
                    driver: match card.driver {
                        Some(driver) => driver,
                        None => "unknown"@,
                    },
                    busy_percent,
                    vram_used_bytes: amount_of(card.mem_info_vram_used),
                    vram_total_bytes: amount_of(card.mem_info_vram_total),
                },
            )
        } else {
            None
        },
        None => None,
    }
}

/// The loads of some cards, in their order.
pub open spec fn loads_of(cards: Seq<CardView>) -> Seq<CardLoadView> {
    kept(cards, |card: CardView| load_of(card))
}

/// The loads of the cards, sorted by the name of the card.
pub fn read_gpus(cards: &Vec<Card>) -> (r: Vec<CardLoad>)
    ensures
        views(r@) == arranged::<CardLoad>(loads_of(views(cards@))),
{
    let ghost seen = views(cards@);
    let ghost f = |card: CardView| load_of(card);
    let mut r: Vec<CardLoad> = Vec::new();
    let mut i: usize = 0;
    proof {
        lemma_kept_none(seen, f);
        assert(views(r@) =~= Seq::<CardLoadView>::empty());
    }
    while i < cards.len()
        invariant
            i <= cards@.len(),
            seen == views(cards@),
            f == |card: CardView| load_of(card),
            views(r@) == kept(seen.take(i as int), f),
        decreases cards@.len() - i,
    {
        let card: &Card = &cards[i];
        let ghost before = views(r@);
        proof {
            lemma_kept_next(seen, f, i as int);
            assert(seen[i as int] == card@);
        }
        if is_card(card.name.as_str()) {
            if let Some(busy_percent) = read_i64(&card.gpu_busy_percent) {
                let load = CardLoad {
                    card: card.name.clone(),
                    driver: match &card.driver {
                        Some(driver) => driver.clone(),
                        None => "unknown".to_owned(),
                    },
                    busy_percent,
                    vram_used_bytes: read_amount(&card.mem_info_vram_used),
                    vram_total_bytes: read_amount(&card.mem_info_vram_total),
                };
                let ghost found = load@;
                r.push(load);
                assert(views(r@) =~= before.push(found));
            }
        }
        i += 1;
    }
    sort(r)
}

/// One GPU context as the DRM fdinfo interface reports it. The counters belong
/// to the context rather than to a process: logind opens the device and passes
/// the descriptor on, so one context appears under several processes and has to
/// be charged to a single one of them.
#[derive(Debug)]
pub struct DrmClient {
    /// Client ids restart per device, so the address is part of the identity.
    pub key: (String, u64),
    pub nanoseconds: u64,
    pub vram_bytes: u64,
    pub descriptors: u32,
}

/// The view of `DrmClient`.
#[verifier::ext_equal]
pub struct DrmClientView {
    pub key: (Seq<char>, u64),
    pub nanoseconds: u64,
    pub vram_bytes: u64,
    pub descriptors: u32,
}

impl View for DrmClient {
    type V = DrmClientView;

    open spec fn view(&self) -> DrmClientView {
        DrmClientView {
            key: (self.key.0@, self.key.1),
            nanoseconds: self.nanoseconds,
            vram_bytes: self.vram_bytes,
            descriptors: self.descriptors,
        }
    }
}

/// What some lines of a descriptor's information say of a context. Engines run in
/// parallel, so their busy times are summed.
#[verifier::ext_equal]
pub struct FdinfoView {
    pub device: Option<Seq<char>>,
    pub client: Option<u64>,
    pub nanoseconds: u64,
    pub vram_bytes: u64,
}

/// The amount that a value begins with, or zero.
pub open spec fn amount_in(value: Seq<char>) -> u64 {
    match first_count(value) {
        Some(n) => n,
        None => 0,
    }
}

/// What is known with one more line.
pub open spec fn with_line(known: FdinfoView, line: Seq<char>) -> FdinfoView {
    match cut(line, ':') {
        Some((key, value)) => {
            let key = trimmed(key);
            let value = trimmed(value);
            if key == "drm-pdev"@ {
                FdinfoView { device: Some(value), ..known }
            } else if key == "drm-client-id"@ {
                FdinfoView { client: Some(amount_in(value)), ..known }
            } else if key == "drm-memory-vram"@ {
                FdinfoView { vram_bytes: wrapped(amount_in(value) as nat * 1024), ..known }
            } else if begins(key, "drm-engine-"@) {
                FdinfoView {
                    nanoseconds: wrapped(known.nanoseconds as nat + amount_in(value) as nat),
                    ..known
                }
            } else {
                known
            }
        },
        None => known,
    }
}

/// What some lines say of a context.
pub open spec fn fdinfo_of(lines: Seq<Seq<char>>) -> FdinfoView
    decreases lines.len(),
{
    if lines.len() == 0 {
        FdinfoView { device: None, client: None, nanoseconds: 0, vram_bytes: 0 }
    } else {
        with_line(fdinfo_of(lines.drop_last()), lines.last())
    }
}

/// The context that a descriptor is on, if its information names one.
pub open spec fn client_of(input: Seq<char>) -> Option<DrmClientView> {
    let known = fdinfo_of(text_lines(input));
    match known.client {
        Some(client) => Some(
            DrmClientView {
                key: (
                    match known.device {
                        Some(device) => device,
                        None => Seq::empty(),
                    },
                    client,
                ),
                nanoseconds: known.nanoseconds,
                vram_bytes: known.vram_bytes,
                descriptors: 1,
            },
        ),
        None => None,
    }
}

/// The view of an optional context.
pub open spec fn optional_client(client: Option<DrmClient>) -> Option<DrmClientView> {
    match client {
        Some(client) => Some(client@),
        None => None,
    }
}

fn read_amount_in(value: &[char]) -> (r: u64)
    ensures
        r == amount_in(value@),
{
    match read_first_count(value) {
        Some(n) => n,
        None => 0,
    }
}

/// Reads the context that a descriptor is on, if its information names one.
pub fn parse_drm_fdinfo(input: &str) -> (r: Option<DrmClient>)
    ensures
        optional_client(r) == client_of(input@),
{
    let chars: Vec<char> = characters(input);
    let all: Vec<&[char]> = lines(chars.as_slice());
    let ghost seen = texts(all@);
    let mut device: Option<String> = None;
    let mut client: Option<u64> = None;
    let mut nanoseconds: u64 = 0;
    let mut vram_bytes: u64 = 0;
    let mut i: usize = 0;
    while i < all.len()
        invariant
            i <= all@.len(),
            seen == texts(all@),
            fdinfo_of(seen.take(i as int)) == (FdinfoView {
                device: optional_text(device),
                client,
                nanoseconds,
                vram_bytes,
            }),
        decreases all@.len() - i,
    {
        assert(seen.take(i + 1).drop_last() =~= seen.take(i as int));
        assert(seen.take(i + 1).last() == all@[i as int]@);
        if let Some((key, value)) = split_once(all[i], ':') {
            let key: &[char] = trim(key);
            let value: &[char] = trim(value);
            if equals(key, "drm-pdev") {
                device = Some(owned(value));
            } else if equals(key, "drm-client-id") {
                client = Some(read_amount_in(value));
            } else if equals(key, "drm-memory-vram") {
                vram_bytes = mul_wrapped(read_amount_in(value), 1024);
            } else if starts_with(key, "drm-engine-") {
                nanoseconds = add_wrapped(nanoseconds, read_amount_in(value));
            }
        }
        i += 1;
    }
    assert(seen.take(i as int) =~= seen);
    match client {
        Some(client) => Some(
            DrmClient {
                key: (
                    match device {
                        Some(device) => device,
                        None => String::new(),
                    },
                    client,
                ),
                nanoseconds,
                vram_bytes,
                descriptors: 1,
            },
        ),
        None => None,
    }
}

/// The position of the context with the given key, at or after `from`, or the
/// length.
pub open spec fn client_index(
    clients: Seq<DrmClientView>,
    key: (Seq<char>, u64),
    from: int,
) -> int
    decreases clients.len() - from,
{
    if from >= clients.len() {
        clients.len() as int
    } else if clients[from].key == key {
        from
    } else {
        client_index(clients, key, from + 1)
    }
}

/// One descriptor more, as 32-bit counters count.
pub open spec fn next_count(n: u32) -> u32 {
    if n == u32::MAX {
        0
    } else {
        (n + 1) as u32
    }
}

/// The contexts with one more descriptor. Descriptors duplicated inside one
/// process repeat a single context, whose counters are those of the first.
pub open spec fn with_client(clients: Seq<DrmClientView>, client: DrmClientView) -> Seq<
    DrmClientView,
> {
    let k = client_index(clients, client.key, 0);
    if k < clients.len() {
        clients.update(
            k,
            DrmClientView { descriptors: next_count(clients[k].descriptors), ..clients[k] },
        )
    } else {
        clients.push(client)
    }
}

/// The contexts behind the descriptors of a process.
pub open spec fn clients_of(infos: Seq<Seq<char>>) -> Seq<DrmClientView>
    decreases infos.len(),
{
    if infos.len() == 0 {
        Seq::empty()
    } else {
        let before = clients_of(infos.drop_last());
        match client_of(infos.last()) {
            Some(client) => with_client(before, client),
            None => before,
        }
    }
}

/// A position in the contexts lies in range, and no context before it has the key.
pub proof fn lemma_client_index(clients: Seq<DrmClientView>, key: (Seq<char>, u64), from: int)
    requires
        0 <= from <= clients.len(),
    ensures
        from <= client_index(clients, key, from) <= clients.len(),
        client_index(clients, key, from) < clients.len() ==> clients[client_index(
            clients,
            key,
            from,
        )].key == key,
        forall|j: int|
            from <= j < client_index(clients, key, from) ==> (#[trigger] clients[j]).key != key,
    decreases clients.len() - from,
{
    if from < clients.len() && clients[from].key != key {
        lemma_client_index(clients, key, from + 1);
    }
}

/// A process counts each context once, however many descriptors it has on it.
pub proof fn law_a_process_counts_a_context_once(infos: Seq<Seq<char>>, i: int, j: int)
    requires
        0 <= i < j < clients_of(infos).len(),
    ensures
        clients_of(infos)[i].key != clients_of(infos)[j].key,
    decreases infos.len(),
{
    if infos.len() > 0 {
        let before = clients_of(infos.drop_last());
        if let Some(client) = client_of(infos.last()) {
            lemma_client_index(before, client.key, 0);
        }
        if j < before.len() {
            law_a_process_counts_a_context_once(infos.drop_last(), i, j);
        }
    }
}

fn find_client(clients: &Vec<DrmClient>, key: &(String, u64)) -> (r: usize)
    ensures
        r == client_index(views(clients@), (key.0@, key.1), 0),
        r <= clients@.len(),
{
    let ghost seen = views(clients@);
    let ghost wanted = (key.0@, key.1);
    let mut i: usize = 0;
    while i < clients.len()
        invariant
            i <= clients@.len(),
            seen == views(clients@),
            wanted == (key.0@, key.1),
            client_index(seen, wanted, 0) == client_index(seen, wanted, i as int),
        decreases clients@.len() - i,
    {
        assert(seen[i as int] == clients@[i as int]@);
        if clients[i].key.1 == key.1 && clients[i].key.0 == key.0 {
            return i;
        }
        i += 1;
    }
    i
}

/// The DRM contexts one process holds, by the information on its descriptors.
/// Engines run in parallel, so their busy times are summed and the result can
/// pass 100% the same way process CPU does across cores.
pub fn read_process_gpu(infos: &Vec<String>) -> (r: Vec<DrmClient>)
    ensures
        views(r@) == clients_of(views(infos@)),
{
    let ghost seen = views(infos@);
    let mut r: Vec<DrmClient> = Vec::new();
    let mut i: usize = 0;
    assert(views(r@) =~= clients_of(seen.take(0)));
    while i < infos.len()
        invariant
            i <= infos@.len(),
            seen == views(infos@),
            views(r@) == clients_of(seen.take(i as int)),
        decreases infos@.len() - i,
    {
        assert(seen.take(i + 1).drop_last() =~= seen.take(i as int));
        assert(seen.take(i + 1).last() == infos@[i as int]@);
        let ghost before = views(r@);
        if let Some(client) = parse_drm_fdinfo(infos[i].as_str()) {
            let k: usize = find_client(&r, &client.key);
            if k < r.len() {
                let known: &DrmClient = &r[k];
                assert(before[k as int] == known@);
                let next = DrmClient {
                    key: (known.key.0.clone(), known.key.1),
                    nanoseconds: known.nanoseconds,
                    vram_bytes: known.vram_bytes,
                    descriptors: known.descriptors.wrapping_add(1),
                };
                let ghost new = next@;
                r.set(k, next);
                assert(views(r@) =~= before.update(k as int, new));
            } else {
                let ghost new = client@;
                r.push(client);
                assert(views(r@) =~= before.push(new));
            }
        }
        i += 1;
    }
    assert(seen.take(i as int) =~= seen);
    r
}

/// A context in the hands of a process.
#[derive(Debug)]
pub struct Holding {
    pub pid: u32,
    pub client: DrmClient,
}

/// The view of `Holding`.
#[verifier::ext_equal]
pub struct HoldingView {
    pub pid: u32,
    pub client: DrmClientView,
}

impl View for Holding {
    type V = HoldingView;

    open spec fn view(&self) -> HoldingView {
        HoldingView { pid: self.pid, client: self.client@ }
    }
}

/// Whether `a` is to be charged before `b`: it has more descriptors on the
/// context, or as many and no smaller process id.
pub open spec fn charged_before(a: HoldingView, b: HoldingView) -> bool {
    a.client.descriptors > b.client.descriptors || (a.client.descriptors == b.client.descriptors
        && a.pid >= b.pid)
}

/// The position of the charge for the given context, at or after `from`, or the
/// length.
pub open spec fn charge_index(
    charges: Seq<HoldingView>,
    key: (Seq<char>, u64),
    from: int,
) -> int
    decreases charges.len() - from,
{
    if from >= charges.len() {
        charges.len() as int
    } else if charges[from].client.key == key {
        from
    } else {
        charge_index(charges, key, from + 1)
    }
}

/// The charges with one more process that holds a context.
pub open spec fn with_holding(charges: Seq<HoldingView>, holding: HoldingView) -> Seq<
    HoldingView,
> {
    let k = charge_index(charges, holding.client.key, 0);
    if k >= charges.len() {
        charges.push(holding)
    } else if charged_before(holding, charges[k]) {
        charges.update(k, holding)
    } else {
        charges
    }
}

/// Who is charged for each context that some processes hold.
pub open spec fn charges_of(holdings: Seq<HoldingView>) -> Seq<HoldingView>
    decreases holdings.len(),
{
    if holdings.len() == 0 {
        Seq::empty()
    } else {
        with_holding(charges_of(holdings.drop_last()), holdings.last())
    }
}

/// A position in the charges lies in range, and no charge before it has the key.
pub proof fn lemma_charge_index(charges: Seq<HoldingView>, key: (Seq<char>, u64), from: int)
    requires
        0 <= from <= charges.len(),
    ensures
        from <= charge_index(charges, key, from) <= charges.len(),
        charge_index(charges, key, from) < charges.len() ==> charges[charge_index(
            charges,
            key,
            from,
        )].client.key == key,
        forall|j: int|
            from <= j < charge_index(charges, key, from) ==> (#[trigger] charges[j]).client.key
                != key,
    decreases charges.len() - from,
{
    if from < charges.len() && charges[from].client.key != key {
        lemma_charge_index(charges, key, from + 1);
    }
}

/// Each context is charged to one process only.
pub proof fn law_a_context_is_charged_once(holdings: Seq<HoldingView>, i: int, j: int)
    requires
        0 <= i < j < charges_of(holdings).len(),
    ensures
        charges_of(holdings)[i].client.key != charges_of(holdings)[j].client.key,
    decreases holdings.len(),
{
    if holdings.len() > 0 {
        let before = charges_of(holdings.drop_last());
        let key = holdings.last().client.key;
        lemma_charge_index(before, key, 0);
        if j < before.len() {
            law_a_context_is_charged_once(holdings.drop_last(), i, j);
        }
    }
}

/// A context that a process holds is charged to a process that holds it, and to
/// none before whom another would be charged.
pub proof fn law_the_main_holder_is_charged(holdings: Seq<HoldingView>, h: int)
    requires
        0 <= h < holdings.len(),
    ensures
        ({
            let charges = charges_of(holdings);
            let k = charge_index(charges, holdings[h].client.key, 0);
            &&& 0 <= k < charges.len()
            &&& charges[k].client.key == holdings[h].client.key
            &&& holdings.contains(charges[k])
            &&& charged_before(charges[k], holdings[h])
            &&& charges[k].client.descriptors >= holdings[h].client.descriptors
            &&& charges[k].client.descriptors == holdings[h].client.descriptors ==> charges[k].pid
                >= holdings[h].pid
        }),
    decreases holdings.len(),
{
    let fewer = holdings.drop_last();
    let last = holdings.last();
    let before = charges_of(fewer);
    let charges = charges_of(holdings);
    let key = holdings[h].client.key;
    lemma_charge_index(before, last.client.key, 0);
    lemma_charge_index(before, key, 0);
    lemma_charge_index(charges, key, 0);
    let p = charge_index(before, last.client.key, 0);
    let k = charge_index(charges, key, 0);
    assert(holdings[holdings.len() - 1] == last);
    if h < fewer.len() {
        law_the_main_holder_is_charged(fewer, h);
        let q = charge_index(before, key, 0);
        assert(fewer[h] == holdings[h]);
        let w = choose|w: int| 0 <= w < fewer.len() && fewer[w] == before[q];
        assert(holdings[w] == before[q]);
        if key == last.client.key {
            assert(p == q);
            lemma_same_index(before, charges, key, q);
        } else {
            lemma_same_index(before, charges, key, q);
        }
    } else {
        if p < before.len() {
            lemma_same_index(before, charges, key, p);
            if !charged_before(last, before[p]) {
                lemma_charges_are_holdings(fewer, p);
                let w = choose|w: int| 0 <= w < fewer.len() && fewer[w] == before[p];
                assert(holdings[w] == before[p]);
            }
        } else {
            lemma_new_index(before, charges, key);
        }
    }
}

proof fn lemma_charges_are_holdings(holdings: Seq<HoldingView>, k: int)
    requires
        0 <= k < charges_of(holdings).len(),
    ensures
        holdings.contains(charges_of(holdings)[k]),
    decreases holdings.len(),
{
    let fewer = holdings.drop_last();
    let before = charges_of(fewer);
    let charges = charges_of(holdings);
    lemma_charge_index(before, holdings.last().client.key, 0);
    if charges[k] == holdings.last() {
        assert(holdings[holdings.len() - 1] == charges[k]);
    } else {
        assert(charges[k] == before[k]);
        lemma_charges_are_holdings(fewer, k);
        let w = choose|w: int| 0 <= w < fewer.len() && fewer[w] == before[k];
        assert(holdings[w] == charges[k]);
    }
}

proof fn lemma_same_index(
    before: Seq<HoldingView>,
    charges: Seq<HoldingView>,
    key: (Seq<char>, u64),
    q: int,
)
    requires
        q == charge_index(before, key, 0),
        q < before.len() <= charges.len(),
        forall|j: int|
            0 <= j < before.len() ==> (#[trigger] charges[j]).client.key == before[j].client.key,
    ensures
        charge_index(charges, key, 0) == q,
{
    lemma_charge_index(before, key, 0);
    lemma_charge_index(charges, key, 0);
    let k = charge_index(charges, key, 0);
    assert(charges[q].client.key == before[q].client.key);
    if k < q {
        assert(charges[k].client.key == before[k].client.key);
    } else if k > q {
        assert(charges[q].client.key != key);
    }
}

proof fn lemma_new_index(
    before: Seq<HoldingView>,
    charges: Seq<HoldingView>,
    key: (Seq<char>, u64),
)
    requires
        charge_index(before, key, 0) == before.len(),
        charges.len() == before.len() + 1,
        charges[before.len() as int].client.key == key,
        forall|j: int| 0 <= j < before.len() ==> (#[trigger] charges[j]) == before[j],
    ensures
        charge_index(charges, key, 0) == before.len(),
{
    lemma_charge_index(before, key, 0);
    lemma_charge_index(charges, key, 0);
    let k = charge_index(charges, key, 0);
    if k < before.len() {
        assert(charges[k] == before[k]);
    } else if k > before.len() {
        assert(charges[before.len() as int].client.key != key);
    }
}

fn find_charge(charges: &Vec<Holding>, key: &(String, u64)) -> (r: usize)
    ensures
        r == charge_index(views(charges@), (key.0@, key.1), 0),
        r <= charges@.len(),
{
    let ghost seen = views(charges@);
    let ghost wanted = (key.0@, key.1);
    let mut i: usize = 0;
    while i < charges.len()
        invariant
            i <= charges@.len(),
            seen == views(charges@),
            wanted == (key.0@, key.1),
            charge_index(seen, wanted, 0) == charge_index(seen, wanted, i as int),
        decreases charges@.len() - i,
    {
        assert(seen[i as int] == charges@[i as int]@);
        let known: &(String, u64) = &charges[i].client.key;
        if known.1 == key.1 && known.0 == key.0 {
            return i;
        }
        i += 1;
    }
    i
}

/// Charges each context to one process. A passed descriptor leaves the context
/// visible under both processes. Charge it to the one holding the most
/// descriptors on it, which is the process working with the GPU rather than the
/// one that opened the device for it.
pub fn charge(holdings: Vec<Holding>) -> (r: Vec<Holding>)
    ensures
        views(r@) == charges_of(views(holdings@)),
{
    let ghost seen = views(holdings@);
    let mut r: Vec<Holding> = Vec::new();
    let mut i: usize = 0;
    assert(views(r@) =~= charges_of(seen.take(0)));
    while i < holdings.len()
        invariant
            i <= holdings@.len(),
            seen == views(holdings@),
            views(r@) == charges_of(seen.take(i as int)),
        decreases holdings@.len() - i,
    {
        assert(seen.take(i + 1).drop_last() =~= seen.take(i as int));
        assert(seen.take(i + 1).last() == holdings@[i as int]@);
        let ghost before = views(r@);
        let holding: &Holding = &holdings[i];
        let k: usize = find_charge(&r, &holding.client.key);
        let taken: bool = if k < r.len() {
            assert(before[k as int] == r@[k as int]@);
            let known: &Holding = &r[k];
            holding.client.descriptors > known.client.descriptors || (holding.client.descriptors
                == known.client.descriptors && holding.pid >= known.pid)
        } else {
            true
        };
        if taken {
            let next = Holding {
                pid: holding.pid,
                client: DrmClient {
                    key: (holding.client.key.0.clone(), holding.client.key.1),
                    nanoseconds: holding.client.nanoseconds,
                    vram_bytes: holding.client.vram_bytes,
                    descriptors: holding.client.descriptors,
                },
            };
            let ghost new = next@;
            assert(new == holding@);
            if k < r.len() {
                r.set(k, next);
                assert(views(r@) =~= before.update(k as int, new));
            } else {
                r.push(next);
                assert(views(r@) =~= before.push(new));
            }
        }
        i += 1;
    }
    assert(seen.take(i as int) =~= seen);
    r
}

/// The busy time of a context when it was last seen, by the charges of then.
pub open spec fn previous_time(charges: Seq<HoldingView>, key: (Seq<char>, u64)) -> Option<u64> {
    let k = charge_index(charges, key, 0);
    if k < charges.len() {
        Some(charges[k].client.nanoseconds)
    } else {
        None
    }
}

/// How much busier a context is than when it was last seen. One that is new, or
/// whose counter went back, is not.
pub open spec fn busy_time(previous: Seq<HoldingView>, charge: HoldingView) -> u64 {
    match previous_time(previous, charge.client.key) {
        Some(nanoseconds) => excess(charge.client.nanoseconds, nanoseconds),
        None => 0,
    }
}

/// The busy times of the contexts that a process is charged for.
pub open spec fn busy_times(
    charges: Seq<HoldingView>,
    previous: Seq<HoldingView>,
    pid: u32,
) -> Seq<u64> {
    kept(
        charges,
        |charge: HoldingView|
            if charge.pid == pid {
                Some(busy_time(previous, charge))
            } else {
                None
            },
    )
}

/// The video memory of the contexts that a process is charged for.
pub open spec fn charged_vram(charges: Seq<HoldingView>, pid: u32) -> nat
    decreases charges.len(),
{
    if charges.len() == 0 {
        0
    } else {
        let before = charged_vram(charges.drop_last(), pid);
        if charges.last().pid == pid {
            before + charges.last().client.vram_bytes as nat
        } else {
            before
        }
    }
}

/// The busy times and the video memory of the contexts that a process is charged
/// for.
pub fn gpu_share(charges: &Vec<Holding>, previous: &Vec<Holding>, pid: u32) -> (r: (Vec<u64>, u64))
    ensures
        r.0@ == busy_times(views(charges@), views(previous@), pid),
        r.1 == wrapped(charged_vram(views(charges@), pid)),
{
    let ghost seen = views(charges@);
    let ghost known = views(previous@);
    let ghost f = |charge: HoldingView|
        if charge.pid == pid {
            Some(busy_time(known, charge))
        } else {
            None
        };
    let mut busy: Vec<u64> = Vec::new();
    let mut vram: u64 = 0;
    let mut i: usize = 0;
    proof {
        lemma_kept_none(seen, f);
    }
    while i < charges.len()
        invariant
            i <= charges@.len(),
            seen == views(charges@),
            known == views(previous@),
            f == |charge: HoldingView|
                if charge.pid == pid {
                    Some(busy_time(known, charge))
                } else {
                    None
                },
            busy@ == kept(seen.take(i as int), f),
            vram == wrapped(charged_vram(seen.take(i as int), pid)),
        decreases charges@.len() - i,
    {
        let charge: &Holding = &charges[i];
        proof {
            lemma_kept_next(seen, f, i as int);
            assert(seen[i as int] == charge@);
            assert(seen.take(i + 1).drop_last() =~= seen.take(i as int));
            assert(seen.take(i + 1).last() == charge@);
        }
        if charge.pid == pid {
            let k: usize = find_charge(previous, &charge.client.key);
            let time: u64 = if k < previous.len() {
                assert(known[k as int] == previous@[k as int]@);
                charge.client.nanoseconds.saturating_sub(previous[k].client.nanoseconds)
            } else {
                0
            };
            busy.push(time);
            proof {
                lemma_wrapped_sum(
                    charged_vram(seen.take(i as int), pid),
                    charge.client.vram_bytes as nat,
                );
            }
            vram = add_wrapped(vram, charge.client.vram_bytes);
        }
        i += 1;
    }
    assert(seen.take(i as int) =~= seen);
    (busy, vram)
}

/// The video memory of a process is added up over its charges: what it has of two lists
/// of charges is what it has of both, a charge of its own counts in full, and one of
/// another process does not count.
pub proof fn law_video_memory_adds_up(
    a: Seq<HoldingView>,
    b: Seq<HoldingView>,
    charge: HoldingView,
    pid: u32,
)
    ensures
        charged_vram(a + b, pid) == charged_vram(a, pid) + charged_vram(b, pid),
        charged_vram(seq![charge], pid) == if charge.pid == pid {
            charge.client.vram_bytes as nat
        } else {
            0
        },
        charged_vram(Seq::empty(), pid) == 0,
    decreases b.len(),
{
    let none = Seq::<HoldingView>::empty();
    assert(seq![charge].drop_last() =~= none);
    assert(charged_vram(none, pid) == 0);
    if b.len() == 0 {
        assert(a + b =~= a);
    } else {
        law_video_memory_adds_up(a, b.drop_last(), charge, pid);
        assert((a + b).drop_last() =~= a + b.drop_last());
        assert((a + b).last() == b.last());
    }
}

/// The video memory of some charges, whoever they are for.
pub open spec fn vram_in_all(charges: Seq<HoldingView>) -> nat
    decreases charges.len(),
{
    if charges.len() == 0 {
        0
    } else {
        vram_in_all(charges.drop_last()) + charges.last().client.vram_bytes as nat
    }
}

/// The video memory that some processes are charged for, one after the other.
pub open spec fn vram_of(charges: Seq<HoldingView>, pids: Seq<u32>) -> nat
    decreases pids.len(),
{
    if pids.len() == 0 {
        0
    } else {
        vram_of(charges, pids.drop_last()) + charged_vram(charges, pids.last())
    }
}

/// No video memory is lost or counted twice: what the processes are charged for is
/// together what the contexts hold.
pub proof fn law_video_memory_is_shared_out(charges: Seq<HoldingView>, pids: Seq<u32>)
    requires
        pids.no_duplicates(),
        forall|k: int| 0 <= k < charges.len() ==> pids.contains((#[trigger] charges[k]).pid),
    ensures
        vram_of(charges, pids) == vram_in_all(charges),
    decreases charges.len(),
{
    if charges.len() == 0 {
        lemma_no_vram(charges, pids);
    } else {
        let fewer = charges.drop_last();
        let last = charges[charges.len() - 1];
        assert forall|k: int| 0 <= k < fewer.len() implies pids.contains(
            (#[trigger] fewer[k]).pid,
        ) by {
            assert(fewer[k] == charges[k]);
        }
        law_video_memory_is_shared_out(fewer, pids);
        lemma_one_more_charge(charges, pids);
    }
}

proof fn lemma_no_vram(charges: Seq<HoldingView>, pids: Seq<u32>)
    requires
        charges.len() == 0,
    ensures
        vram_of(charges, pids) == 0,
    decreases pids.len(),
{
    if pids.len() > 0 {
        lemma_no_vram(charges, pids.drop_last());
    }
}

proof fn lemma_one_more_charge(charges: Seq<HoldingView>, pids: Seq<u32>)
    requires
        charges.len() > 0,
        pids.no_duplicates(),
    ensures
        vram_of(charges, pids) == vram_of(charges.drop_last(), pids) + if pids.contains(
            charges.last().pid,
        ) {
            charges.last().client.vram_bytes as nat
        } else {
            0
        },
    decreases pids.len(),
{
    if pids.len() > 0 {
        let fewer = pids.drop_last();
        let pid = charges.last().pid;
        assert(fewer.no_duplicates());
        lemma_one_more_charge(charges, fewer);
        assert(pids[pids.len() - 1] == pids.last());
        if fewer.contains(pid) {
            let k = choose|k: int| 0 <= k < fewer.len() && fewer[k] == pid;
            assert(pids[k] == pid);
        } else if pids.contains(pid) {
            let k = choose|k: int| 0 <= k < pids.len() && pids[k] == pid;
            if k < fewer.len() {
                assert(fewer[k] == pid);
            }
        }
    }
}

/// The busy times of a process are those of its charges, one by one: of two lists of
/// charges those of both, one for a charge of its own, and none for one of another process.
pub proof fn law_busy_times_are_listed(
    a: Seq<HoldingView>,
    b: Seq<HoldingView>,
    charge: HoldingView,
    previous: Seq<HoldingView>,
    pid: u32,
)
    ensures
        busy_times(a + b, previous, pid) == busy_times(a, previous, pid) + busy_times(
            b,
            previous,
            pid,
        ),
        busy_times(seq![charge], previous, pid) == if charge.pid == pid {
            seq![busy_time(previous, charge)]
        } else {
            Seq::empty()
        },
{
    let f = |charge: HoldingView|
        if charge.pid == pid {
            Some(busy_time(previous, charge))
        } else {
            None
        };
    lemma_kept_both(a, b, f);
    let none = Seq::<HoldingView>::empty();
    assert(seq![charge].drop_last() =~= none);
    assert(kept(none, f) =~= Seq::<u64>::empty());
    assert(busy_times(seq![charge], previous, pid) =~= if charge.pid == pid {
        seq![busy_time(previous, charge)]
    } else {
        Seq::empty()
    });
}

/// A context that was there before was busy for as long as its counter advanced, and not
/// at all where the counter went back.
pub proof fn law_busy_time_is_the_difference(
    previous: Seq<HoldingView>,
    k: int,
    charge: HoldingView,
)
    requires
        0 <= k < previous.len(),
        previous[k].client.key == charge.client.key,
        forall|j: int|
            0 <= j < previous.len() && j != k ==> (#[trigger] previous[j]).client.key
                != charge.client.key,
    ensures
        charge.client.nanoseconds >= previous[k].client.nanoseconds ==> busy_time(previous, charge)
            == charge.client.nanoseconds - previous[k].client.nanoseconds,
        charge.client.nanoseconds < previous[k].client.nanoseconds ==> busy_time(previous, charge)
            == 0,
{
    lemma_charge_index(previous, charge.client.key, 0);
}

/// The line on the client names the context that a descriptor is on.
pub proof fn law_the_client_line_names_the_context(
    text: Seq<char>,
    blanks: Seq<char>,
    n: u64,
    rest: Seq<char>,
)
    requires
        complete(text),
        blank(blanks),
        one_line(blanks + decimal(n as nat) + rest),
        rest.len() > 0 ==> whitespace(rest[0]),
    ensures
        ({
            let line = "drm-client-id:"@ + (blanks + decimal(n as nat) + rest);
            match (client_of(text), client_of(text + line.push('\n'))) {
                (Some(known), Some(client)) => client == (DrmClientView {
                    key: (known.key.0, n),
                    ..known
                }),
                (None, Some(client)) => client.key.1 == n,
                _ => false,
            }
        }),
{
    reveal_strlit("drm-client-id:");
    reveal_strlit("drm-client-id");
    reveal_strlit("drm-pdev");
    assert("drm-client-id:"@ =~= "drm-client-id"@.push(':'));
    lemma_descriptor_line(text, "drm-client-id"@, blanks + decimal(n as nat) + rest);
    lemma_amount(blanks, n, rest);
    assert("drm-client-id"@.len() != "drm-pdev"@.len());
}

/// The line on the device names the card of the context, and changes nothing else.
pub proof fn law_the_device_line_names_the_card(
    text: Seq<char>,
    blanks: Seq<char>,
    device: Seq<char>,
)
    requires
        complete(text),
        blank(blanks),
        one_line(blanks + device),
        wordlike(device),
    ensures
        client_of(text + ("drm-pdev:"@ + (blanks + device)).push('\n')) == match client_of(text) {
            Some(known) => Some(DrmClientView { key: (device, known.key.1), ..known }),
            None => None,
        },
{
    reveal_strlit("drm-pdev:");
    reveal_strlit("drm-pdev");
    assert("drm-pdev:"@ =~= "drm-pdev"@.push(':'));
    lemma_descriptor_line(text, "drm-pdev"@, blanks + device);
    law_trimming_takes_the_blanks(blanks, device, Seq::empty());
    assert(blanks + device + Seq::<char>::empty() =~= blanks + device);
}

/// The line on the memory tells the kilobytes that the context holds, and changes nothing
/// else.
pub proof fn law_the_memory_line_tells_the_kilobytes(
    text: Seq<char>,
    blanks: Seq<char>,
    n: u64,
    rest: Seq<char>,
)
    requires
        complete(text),
        blank(blanks),
        one_line(blanks + decimal(n as nat) + rest),
        rest.len() > 0 ==> whitespace(rest[0]),
        n * 1024 <= u64::MAX,
    ensures
        client_of(
            text + ("drm-memory-vram:"@ + (blanks + decimal(n as nat) + rest)).push('\n'),
        ) == match client_of(text) {
            Some(known) => Some(DrmClientView { vram_bytes: (n * 1024) as u64, ..known }),
            None => None,
        },
{
    reveal_strlit("drm-memory-vram:");
    reveal_strlit("drm-client-id");
    reveal_strlit("drm-pdev");
    reveal_strlit("drm-memory-vram");
    assert("drm-memory-vram:"@ =~= "drm-memory-vram"@.push(':'));
    lemma_descriptor_line(text, "drm-memory-vram"@, blanks + decimal(n as nat) + rest);
    lemma_amount(blanks, n, rest);
    assert("drm-memory-vram"@.len() != "drm-pdev"@.len());
    assert("drm-memory-vram"@.len() != "drm-client-id"@.len());
}

/// Each line on an engine adds its time to the busy time of the context, and changes
/// nothing else.
pub proof fn law_engine_lines_add_up(
    text: Seq<char>,
    engine: Seq<char>,
    blanks: Seq<char>,
    n: u64,
    rest: Seq<char>,
)
    requires
        complete(text),
        forall|i: int| 0 <= i < engine.len() ==> name_like(#[trigger] engine[i]),
        blank(blanks),
        one_line(blanks + decimal(n as nat) + rest),
        rest.len() > 0 ==> whitespace(rest[0]),
        client_of(text) matches Some(known) ==> known.nanoseconds + n <= u64::MAX,
    ensures
        client_of(
            text + (("drm-engine-"@ + engine).push(':') + (blanks + decimal(n as nat)
                + rest)).push('\n'),
        ) == match client_of(text) {
            Some(known) => Some(
                DrmClientView { nanoseconds: (known.nanoseconds + n) as u64, ..known },
            ),
            None => None,
        },
{
    reveal_strlit("drm-engine-");
    reveal_strlit("drm-client-id");
    reveal_strlit("drm-pdev");
    reveal_strlit("drm-memory-vram");
    let key = "drm-engine-"@ + engine;
    assert forall|i: int| 0 <= i < key.len() implies #[trigger] key[i] != ':' && !whitespace(
        key[i],
    ) && key[i] != '\n' by {
        if i >= 11 {
            assert(name_like(engine[i - 11]));
        }
    }
    lemma_descriptor_line(text, key, blanks + decimal(n as nat) + rest);
    lemma_amount(blanks, n, rest);
    assert(key.take(11) =~= "drm-engine-"@);
    assert(key[4] == 'e');
    assert("drm-client-id"@[4] == 'c');
    assert("drm-pdev"@[4] == 'p');
    assert("drm-memory-vram"@[4] == 'm');
}

/// A character of the name of an engine.
pub open spec fn name_like(c: char) -> bool {
    'a' <= c <= 'z' || '0' <= c <= '9' || c == '-' || c == '_'
}

proof fn lemma_amount(blanks: Seq<char>, n: u64, rest: Seq<char>)
    requires
        blank(blanks),
        rest.len() > 0 ==> whitespace(rest[0]),
    ensures
        amount_in(trimmed(blanks + decimal(n as nat) + rest)) == n,
{
    let s = blanks + decimal(n as nat) + rest;
    lemma_decimal_is_a_word(n as nat);
    let d = decimal(n as nat);
    let start = blanks.len() as int;
    lemma_blank_end(s, 0);
    assert forall|i: int| 0 <= i < start implies whitespace(#[trigger] s[i]) by {
        assert(s[i] == blanks[i]);
    }
    assert(s[start] == d[0]);
    lemma_blanks_end(s, 0, start);
    lemma_blank_start(s, start, s.len() as int);
    let stop = blank_start(s, start, s.len() as int);
    assert(stop >= start + d.len()) by {
        lemma_blank_tail(s, start, s.len() as int, start + d.len());
    }
    let tail = s.subrange(start + d.len(), stop);
    assert(trimmed(s) =~= Seq::<char>::empty() + d + tail);
    if tail.len() > 0 {
        assert(tail[0] == rest[0]);
    }
    law_a_count_reads_back(Seq::empty(), n, tail);
}

proof fn lemma_blank_tail(s: Seq<char>, start: int, end: int, at: int)
    requires
        0 <= start < at <= end <= s.len(),
        !whitespace(s[at - 1]),
    ensures
        blank_start(s, start, end) >= at,
    decreases end - at,
{
    if at < end {
        lemma_blank_tail(s, start, end - 1, at);
    }
}

proof fn lemma_descriptor_line(text: Seq<char>, key: Seq<char>, value: Seq<char>)
    requires
        complete(text),
        key.len() > 0,
        forall|i: int|
            0 <= i < key.len() ==> #[trigger] key[i] != ':' && !whitespace(key[i]) && key[i]
                != '\n',
        one_line(value),
    ensures
        fdinfo_of(text_lines(text + (key.push(':') + value).push('\n'))) == with_line(
            fdinfo_of(text_lines(text)),
            key.push(':') + value,
        ),
        cut(key.push(':') + value, ':') == Some((key, value)),
        trimmed(key) == key,
{
    let line = key.push(':') + value;
    assert forall|i: int| 0 <= i < line.len() implies #[trigger] line[i] != '\n' by {
        if i < key.len() {
            assert(line[i] == key[i]);
        } else if i > key.len() {
            assert(line[i] == value[i - key.len() - 1]);
        }
    }
    if value.len() > 0 {
        assert(line.last() == value.last());
    }
    law_one_line_more(text, line);
    let all = text_lines(text).push(line);
    assert(all.drop_last() =~= text_lines(text));
    assert(all.last() == line);
    law_a_cut_parts_a_text(key, ':', value);
    law_trimming_takes_the_blanks(Seq::empty(), key, Seq::empty());
    assert(Seq::<char>::empty() + key + Seq::<char>::empty() =~= key);
}

/// A context that was not there before has no busy time yet.
pub proof fn law_a_new_context_was_not_busy(previous: Seq<HoldingView>, charge: HoldingView)
    requires
        forall|k: int|
            0 <= k < previous.len() ==> (#[trigger] previous[k]).client.key != charge.client.key,
    ensures
        busy_time(previous, charge) == 0,
{
    lemma_charge_index(previous, charge.client.key, 0);
}

/// A context whose counter did not move was not busy.
pub proof fn law_an_unchanged_context_was_not_busy(holdings: Seq<HoldingView>, k: int)
    requires
        0 <= k < charges_of(holdings).len(),
    ensures
        busy_time(charges_of(holdings), charges_of(holdings)[k]) == 0,
{
    let charges = charges_of(holdings);
    let key = charges[k].client.key;
    lemma_charge_index(charges, key, 0);
    let i = charge_index(charges, key, 0);
    if i < k {
        law_a_context_is_charged_once(holdings, i, k);
    }
}

/// A card reads back: its name, its driver, how busy it is, and the memory that is used
/// and that there is. A negative amount of memory, or none, counts as zero.
pub proof fn law_a_card_reads_back(
    card: CardView,
    index: Seq<char>,
    busy: nat,
    used: nat,
    total: nat,
    end: Seq<char>,
)
    requires
        blank(end),
        digits(index),
        card.name == "card"@ + index,
        card.gpu_busy_percent == Some(decimal(busy) + end),
        busy <= i64::MAX,
        used <= i64::MAX,
        total <= i64::MAX,
    ensures
        load_of(card) matches Some(load) && {
            &&& load.card == card.name
            &&& card.driver is Some ==> load.driver == card.driver->0
            &&& card.driver is None ==> load.driver == "unknown"@
            &&& load.busy_percent == busy
            &&& card.mem_info_vram_used == Some(decimal(used) + end) ==> load.vram_used_bytes
                == used
            &&& card.mem_info_vram_total == Some(decimal(total) + end) ==> load.vram_total_bytes
                == total
            &&& card.mem_info_vram_used == Some(seq!['-'] + decimal(used) + end)
                ==> load.vram_used_bytes == 0
            &&& card.mem_info_vram_total == Some(seq!['-'] + decimal(total) + end)
                ==> load.vram_total_bytes == 0
            &&& card.mem_info_vram_used is None ==> load.vram_used_bytes == 0
            &&& card.mem_info_vram_total is None ==> load.vram_total_bytes == 0
        },
{
    let none = Seq::<char>::empty();
    law_signed_numbers_read_back(none, busy, end);
    law_signed_numbers_read_back(none, used, end);
    law_signed_numbers_read_back(none, total, end);
    assert(none + decimal(busy) + end =~= decimal(busy) + end);
    assert(none + decimal(used) + end =~= decimal(used) + end);
    assert(none + decimal(total) + end =~= decimal(total) + end);
    assert(none + (seq!['-'] + decimal(used)) + end =~= seq!['-'] + decimal(used) + end);
    assert(none + (seq!['-'] + decimal(total)) + end =~= seq!['-'] + decimal(total) + end);
    assert(card.name.take("card"@.len() as int) =~= "card"@);
    assert(card.name.skip("card"@.len() as int) =~= index);
}

/// What is not a card, or says nothing of its load, is passed over. The name of a card is
/// `card` and a number: a connector has a dash behind it, and a render node another name.
pub proof fn law_other_entries_are_no_cards(card: CardView, i: int)
    ensures
        card.gpu_busy_percent is None ==> load_of(card) is None,
        0 <= i < card.name.len() && card.name[i] == '-' ==> load_of(card) is None,
        card.name.len() > 0 && card.name[0] != 'c' ==> load_of(card) is None,
{
    reveal_strlit("card");
    if 0 <= i < card.name.len() && card.name[i] == '-' && names_a_card(card.name) {
        if i < 4 {
            assert(card.name.take(4)[i] == card.name[i]);
        } else {
            assert(card.name.skip(4)[i - 4] == card.name[i]);
        }
    }
    if card.name.len() > 0 && card.name[0] != 'c' && names_a_card(card.name) {
        assert(card.name.take(4)[0] == card.name[0]);
    }
}

/// The loads of cards are those of each of them, and stand by the names of the cards.
pub proof fn law_loads_of_both(a: Seq<CardView>, b: Seq<CardView>, card: CardView, i: int, j: int)
    ensures
        loads_of(a + b) == loads_of(a) + loads_of(b),
        load_of(card) is Some ==> loads_of(seq![card]) == seq![load_of(card)->0],
        load_of(card) is None ==> loads_of(seq![card]).len() == 0,
        arranged::<CardLoad>(loads_of(a)).to_multiset() == loads_of(a).to_multiset(),
        0 <= i <= j < arranged::<CardLoad>(loads_of(a)).len() ==> text_le(
            arranged::<CardLoad>(loads_of(a))[i].card,
            arranged::<CardLoad>(loads_of(a))[j].card,
        ),
{
    let f = |card: CardView| load_of(card);
    let one = seq![card];
    lemma_kept_both(a, b, f);
    lemma_kept_none(one, f);
    lemma_kept_next(one, f, 0);
    assert(one.take(1) =~= one);
    assert(f(card) == load_of(card));
    law_arranged_is_sorted::<CardLoad>(loads_of(a));
    let r = arranged::<CardLoad>(loads_of(a));
    if 0 <= i <= j < r.len() {
        assert(CardLoad::le(r[i], r[j]));
    }
}

/// One descriptor more of a process is one context more, if its context was not there; if
/// it was, it has one descriptor more and keeps its counters. The others stay.
pub proof fn law_a_descriptor_more(infos: Seq<Seq<char>>, info: Seq<char>, k: int)
    ensures
        client_of(info) is None ==> clients_of(infos.push(info)) == clients_of(infos),
        client_of(info) matches Some(client) ==> {
            let before = clients_of(infos);
            let after = clients_of(infos.push(info));
            &&& (forall|j: int| 0 <= j < before.len() ==> (#[trigger] before[j]).key
                != client.key) ==> after == before.push(client)
            &&& 0 <= k < before.len() && before[k].key == client.key ==> {
                &&& after.len() == before.len()
                &&& after[k].key == before[k].key
                &&& after[k].nanoseconds == before[k].nanoseconds
                &&& after[k].vram_bytes == before[k].vram_bytes
                &&& before[k].descriptors < u32::MAX ==> after[k].descriptors
                    == before[k].descriptors + 1
                &&& forall|j: int| 0 <= j < before.len() && j != k ==> #[trigger] after[j]
                    == before[j]
            }
        },
{
    let before = clients_of(infos);
    assert(infos.push(info).drop_last() =~= infos);
    if let Some(client) = client_of(info) {
        lemma_client_index(before, client.key, 0);
        let at = client_index(before, client.key, 0);
        if 0 <= k < before.len() && before[k].key == client.key && at != k {
            law_a_process_counts_a_context_once(infos, at, k);
        }
    }
}

} // verus!
