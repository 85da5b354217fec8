//! Which processes are worth a series of their own.

use crate::order::{
    is_ranking, key_numbers, law_a_rank_counts_the_larger, lemma_ranking_exists, outranks,
    positions, rank, ranking,
};
use crate::snapshot::{Process, ProcessView};
use crate::text::views;
use vstd::prelude::*;

verus! {

/// The bytes that a process has received and sent.
pub open spec fn network_bytes_of(process: ProcessView) -> int {
    let sum = process.network_receive_bytes + process.network_transmit_bytes;
    if sum > u64::MAX {
        u64::MAX as int
    } else {
        sum
    }
}

/// The bytes that a process has received and sent, at most the largest number.
pub fn process_network_bytes(process: &Process) -> (r: u64)
    ensures
        r == network_bytes_of(process@),
{
    process.network_receive_bytes.saturating_add(process.network_transmit_bytes)
}

/// The key by which a process is ranked for its share of the GPU.
pub open spec fn gpu_key_of(process: ProcessView) -> int {
    if process.gpu_percent.positive() {
        process.gpu_percent.rank as int
    } else {
        0
    }
}

/// The resident memory of each process.
pub open spec fn memory_keys(processes: Seq<ProcessView>) -> Seq<int> {
    Seq::new(processes.len(), |i: int| processes[i].rss_bytes as int)
}

/// The network bytes of each process.
pub open spec fn network_keys(processes: Seq<ProcessView>) -> Seq<int> {
    Seq::new(processes.len(), |i: int| network_bytes_of(processes[i]))
}

/// The GPU key of each process.
pub open spec fn gpu_keys(processes: Seq<ProcessView>) -> Seq<int> {
    Seq::new(processes.len(), |i: int| gpu_key_of(processes[i]))
}

/// Whether one of the chosen processes has the given id.
pub open spec fn listed(processes: Seq<ProcessView>, chosen: Seq<int>, pid: u32) -> bool {
    exists|k: int| 0 <= k < chosen.len() && processes[#[trigger] chosen[k]].pid == pid
}

/// The chosen processes with one more, unless its id is among them already.
pub open spec fn with(processes: Seq<ProcessView>, chosen: Seq<int>, candidate: int) -> Seq<int> {
    if listed(processes, chosen, processes[candidate].pid) {
        chosen
    } else {
        chosen.push(candidate)
    }
}

/// The chosen processes with those of `candidates` whose ids are new.
pub open spec fn with_all(
    processes: Seq<ProcessView>,
    chosen: Seq<int>,
    candidates: Seq<int>,
) -> Seq<int>
    decreases candidates.len(),
{
    if candidates.len() == 0 {
        chosen
    } else {
        with(
            processes,
            with_all(processes, chosen, candidates.drop_last()),
            candidates.last(),
        )
    }
}

/// How many of the first positions of a ranking have a key above zero, of at
/// most `limit`.
pub open spec fn leading(keys: Seq<int>, order: Seq<int>, limit: int) -> int
    decreases limit,
{
    if limit <= 0 {
        0
    } else {
        let before = leading(keys, order, limit - 1);
        if before == limit - 1 && keys[order[limit - 1]] > 0 {
            limit
        } else {
            before
        }
    }
}

/// The first `limit` positions of the ranking by `keys`, as far as the keys are
/// above zero.
pub open spec fn top(keys: Seq<int>, limit: int) -> Seq<int> {
    let order = ranking(keys);
    order.take(leading(keys, order, limit))
}

/// As many as there are, and at most `limit`.
pub open spec fn at_most(length: nat, limit: nat) -> int {
    if length < limit {
        length as int
    } else {
        limit as int
    }
}

/// The processes that are exported: the first `limit` as they stand, then those
/// of the `limit` largest in memory, in network bytes and in GPU share that are
/// not among them yet. A process without network bytes or GPU share is not
/// chosen for them.
pub open spec fn selection(processes: Seq<ProcessView>, limit: nat) -> Seq<int> {
    let n = at_most(processes.len(), limit);
    let by_cpu = Seq::new(n as nat, |i: int| i);
    let by_memory = with_all(processes, by_cpu, ranking(memory_keys(processes)).take(n));
    let by_network = with_all(processes, by_memory, top(network_keys(processes), n));
    with_all(processes, by_network, top(gpu_keys(processes), n))
}

/// Whether the chosen positions are positions of processes.
pub open spec fn in_range(processes: Seq<ProcessView>, chosen: Seq<int>) -> bool {
    forall|k: int| 0 <= k < chosen.len() ==> 0 <= #[trigger] chosen[k] < processes.len()
}

/// Whether no two of the chosen processes share an id.
pub open spec fn distinct_ids(processes: Seq<ProcessView>, chosen: Seq<int>) -> bool {
    forall|i: int, j: int|
        0 <= i < j < chosen.len() ==> processes[#[trigger] chosen[i]].pid
            != processes[#[trigger] chosen[j]].pid
}

proof fn lemma_with_all(processes: Seq<ProcessView>, chosen: Seq<int>, candidates: Seq<int>)
    requires
        in_range(processes, chosen),
        in_range(processes, candidates),
    ensures
        ({
            let r = with_all(processes, chosen, candidates);
            &&& in_range(processes, r)
            &&& chosen.len() <= r.len() <= chosen.len() + candidates.len()
            &&& r.take(chosen.len() as int) == chosen
            &&& distinct_ids(processes, chosen) ==> distinct_ids(processes, r)
            &&& forall|pid: u32| listed(processes, chosen, pid) ==> listed(processes, r, pid)
            &&& forall|k: int|
                0 <= k < candidates.len() ==> listed(
                    processes,
                    r,
                    processes[#[trigger] candidates[k]].pid,
                )
        }),
    decreases candidates.len(),
{
    let r = with_all(processes, chosen, candidates);
    if candidates.len() == 0 {
        assert(r.take(chosen.len() as int) =~= chosen);
    } else {
        let rest = candidates.drop_last();
        let c = candidates.last();
        assert(in_range(processes, rest)) by {
            assert forall|k: int| 0 <= k < rest.len() implies 0 <= #[trigger] rest[k]
                < processes.len() by {
                assert(rest[k] == candidates[k]);
            }
        }
        lemma_with_all(processes, chosen, rest);
        let before = with_all(processes, chosen, rest);
        assert(r == with(processes, before, c));
        assert(candidates[candidates.len() - 1] == c);
        assert(r.take(chosen.len() as int) =~= before.take(chosen.len() as int));
        assert forall|pid: u32| listed(processes, before, pid) implies listed(
            processes,
            r,
            pid,
        ) by {
            let k = choose|k: int|
                0 <= k < before.len() && processes[#[trigger] before[k]].pid == pid;
            assert(r[k] == before[k]);
        }
        assert(listed(processes, r, processes[c].pid)) by {
            if !listed(processes, before, processes[c].pid) {
                assert(r[r.len() - 1] == c);
            }
        }
        assert forall|k: int| 0 <= k < candidates.len() implies listed(
            processes,
            r,
            processes[#[trigger] candidates[k]].pid,
        ) by {
            if k < rest.len() {
                assert(rest[k] == candidates[k]);
            }
        }
        if distinct_ids(processes, chosen) && !listed(processes, before, processes[c].pid) {
            assert forall|i: int, j: int| 0 <= i < j < r.len() implies
                processes[#[trigger] r[i]].pid != processes[#[trigger] r[j]].pid by {
                assert(r[i] == before[i]);
                if j < before.len() {
                    assert(r[j] == before[j]);
                }
            }
        }
    }
}

proof fn lemma_leading(keys: Seq<int>, order: Seq<int>, limit: int)
    ensures
        0 <= leading(keys, order, limit) <= if limit > 0 {
            limit
        } else {
            0
        },
        forall|k: int| 0 <= k < leading(keys, order, limit) ==> keys[#[trigger] order[k]] > 0,
        leading(keys, order, limit) < limit ==> keys[order[leading(keys, order, limit)]] <= 0,
    decreases limit,
{
    if limit > 0 {
        lemma_leading(keys, order, limit - 1);
    }
}

/// The choice is bounded: at most four times the limit, whatever runs.
pub proof fn law_selection_is_bounded(processes: Seq<ProcessView>, limit: nat)
    ensures
        selection(processes, limit).len() <= 4 * limit,
        in_range(processes, selection(processes, limit)),
{
    lemma_selection(processes, limit);
}

/// Where no two processes share an id, no two of the chosen ones do.
pub proof fn law_selection_names_a_process_once(processes: Seq<ProcessView>, limit: nat)
    requires
        forall|i: int, j: int|
            0 <= i < j < processes.len() ==> (#[trigger] processes[i]).pid != (
            #[trigger] processes[j]).pid,
    ensures
        distinct_ids(processes, selection(processes, limit)),
{
    lemma_selection(processes, limit);
}

/// The choice is the union of the rankings: the first `limit` processes stand at
/// its beginning, and of the `limit` first in memory, network bytes and GPU share
/// each is among the chosen, the last two where there is anything to rank.
pub proof fn law_selection_covers_every_ranking(processes: Seq<ProcessView>, limit: nat, k: int)
    requires
        0 <= k < limit,
        k < processes.len(),
    ensures
        k < selection(processes, limit).len(),
        selection(processes, limit)[k] == k,
        listed(
            processes,
            selection(processes, limit),
            processes[ranking(memory_keys(processes))[k]].pid,
        ),
        network_keys(processes)[ranking(network_keys(processes))[k]] > 0 ==> listed(
            processes,
            selection(processes, limit),
            processes[ranking(network_keys(processes))[k]].pid,
        ),
        gpu_keys(processes)[ranking(gpu_keys(processes))[k]] > 0 ==> listed(
            processes,
            selection(processes, limit),
            processes[ranking(gpu_keys(processes))[k]].pid,
        ),
{
    lemma_selection(processes, limit);
}

/// A process that is only idle is not chosen: each of the chosen is among the
/// first `limit`, among the `limit` largest in memory, among the `limit` with the
/// most network bytes and has some, or among the `limit` with the largest share of
/// the GPU and has some.
pub proof fn law_idle_processes_are_left_out(processes: Seq<ProcessView>, limit: nat, k: int)
    requires
        0 <= k < selection(processes, limit).len(),
    ensures
        ({
            let i = selection(processes, limit)[k];
            let n = at_most(processes.len(), limit);
            ||| 0 <= i < n
            ||| ranking(memory_keys(processes)).take(n).contains(i)
            ||| ranking(network_keys(processes)).take(n).contains(i) && network_bytes_of(
                processes[i],
            ) > 0
            ||| ranking(gpu_keys(processes)).take(n).contains(i) && gpu_key_of(processes[i]) > 0
        }),
{
    lemma_rankings(processes);
    let n = at_most(processes.len(), limit);
    let cpu = Seq::new(n as nat, |i: int| i);
    let memory = ranking(memory_keys(processes)).take(n);
    let network = top(network_keys(processes), n);
    let gpu = top(gpu_keys(processes), n);
    let a = with_all(processes, cpu, memory);
    let b = with_all(processes, a, network);
    let c = with_all(processes, b, gpu);
    lemma_leading(network_keys(processes), ranking(network_keys(processes)), n);
    lemma_leading(gpu_keys(processes), ranking(gpu_keys(processes)), n);
    lemma_origin(processes, b, gpu, c[k]);
    assert(c.contains(c[k]));
    let i = c[k];
    if b.contains(i) {
        lemma_origin(processes, a, network, i);
        if a.contains(i) {
            lemma_origin(processes, cpu, memory, i);
            if cpu.contains(i) {
                let j = choose|j: int| 0 <= j < cpu.len() && cpu[j] == i;
                assert(cpu[j] == j);
            }
        } else {
            let j = choose|j: int| 0 <= j < network.len() && network[j] == i;
            assert(network[j] == ranking(network_keys(processes)).take(n)[j]);
        }
    } else {
        let j = choose|j: int| 0 <= j < gpu.len() && gpu[j] == i;
        assert(gpu[j] == ranking(gpu_keys(processes)).take(n)[j]);
    }
}

/// Where a process stands in the ranking by some weight, and how many weigh more.
proof fn lemma_stands(
    processes: Seq<ProcessView>,
    keys: Seq<int>,
    weight: spec_fn(ProcessView) -> int,
    i: int,
) -> (p: int)
    requires
        keys == processes.map_values(weight),
        0 <= i < processes.len(),
    ensures
        0 <= p < keys.len(),
        ranking(keys)[p] == i,
        processes.filter(|q: ProcessView| weight(q) > weight(processes[i])).len() <= p,
        p < processes.filter(|q: ProcessView| weight(q) >= weight(processes[i])).len(),
{
    lemma_ranking_exists(keys);
    let order = ranking(keys);
    assert(order.contains(i));
    let p = choose|p: int| 0 <= p < order.len() && order[p] == i;
    law_a_rank_counts_the_larger(processes, weight, order, p);
    p
}

/// A process is exported if, with itself, at most `limit` have as much resident memory.
pub proof fn law_the_largest_in_memory_are_selected(
    processes: Seq<ProcessView>,
    limit: nat,
    i: int,
)
    requires
        0 <= i < processes.len(),
        processes.filter(|q: ProcessView| q.rss_bytes >= processes[i].rss_bytes).len() <= limit,
    ensures
        exists|k: int|
            0 <= k < selection(processes, limit).len() && processes[#[trigger] selection(
                processes,
                limit,
            )[k]].pid == processes[i].pid,
{
    let weight = |q: ProcessView| q.rss_bytes as int;
    assert(memory_keys(processes) =~= processes.map_values(weight));
    let p = lemma_stands(processes, memory_keys(processes), weight, i);
    assert(processes.filter(|q: ProcessView| weight(q) >= weight(processes[i]))
        == processes.filter(|q: ProcessView| q.rss_bytes >= processes[i].rss_bytes)) by {
        lemma_same_filter(
            processes,
            |q: ProcessView| weight(q) >= weight(processes[i]),
            |q: ProcessView| q.rss_bytes >= processes[i].rss_bytes,
        );
    }
    law_selection_covers_every_ranking(processes, limit, p);
    assert(listed(processes, selection(processes, limit), processes[i].pid));
}

/// A process with network bytes is exported if, with itself, at most `limit` have
/// received and sent as much.
pub proof fn law_the_largest_talkers_are_selected(
    processes: Seq<ProcessView>,
    limit: nat,
    i: int,
)
    requires
        0 <= i < processes.len(),
        processes[i].network_receive_bytes > 0 || processes[i].network_transmit_bytes > 0,
        processes.filter(
            |q: ProcessView|
                q.network_receive_bytes + q.network_transmit_bytes >= u64::MAX
                    || q.network_receive_bytes + q.network_transmit_bytes
                    >= processes[i].network_receive_bytes + processes[i].network_transmit_bytes,
        ).len() <= limit,
    ensures
        exists|k: int|
            0 <= k < selection(processes, limit).len() && processes[#[trigger] selection(
                processes,
                limit,
            )[k]].pid == processes[i].pid,
{
    let weight = |q: ProcessView| network_bytes_of(q);
    assert(network_keys(processes) =~= processes.map_values(weight));
    let p = lemma_stands(processes, network_keys(processes), weight, i);
    lemma_same_filter(
        processes,
        |q: ProcessView| weight(q) >= weight(processes[i]),
        |q: ProcessView|
            q.network_receive_bytes + q.network_transmit_bytes >= u64::MAX
                || q.network_receive_bytes + q.network_transmit_bytes
                >= processes[i].network_receive_bytes + processes[i].network_transmit_bytes,
    );
    law_selection_covers_every_ranking(processes, limit, p);
    assert(listed(processes, selection(processes, limit), processes[i].pid));
}

/// A process that has a share of the GPU is exported if, with itself, at most `limit` have
/// as large a share.
pub proof fn law_the_largest_gpu_users_are_selected(
    processes: Seq<ProcessView>,
    limit: nat,
    i: int,
)
    requires
        0 <= i < processes.len(),
        0 < processes[i].gpu_percent.rank <= 0x7ff0_0000_0000_0000,
        processes.filter(
            |q: ProcessView|
                0 < q.gpu_percent.rank <= 0x7ff0_0000_0000_0000
                    && q.gpu_percent.rank >= processes[i].gpu_percent.rank,
        ).len() <= limit,
    ensures
        exists|k: int|
            0 <= k < selection(processes, limit).len() && processes[#[trigger] selection(
                processes,
                limit,
            )[k]].pid == processes[i].pid,
{
    let weight = |q: ProcessView| gpu_key_of(q);
    assert(gpu_keys(processes) =~= processes.map_values(weight));
    let p = lemma_stands(processes, gpu_keys(processes), weight, i);
    lemma_same_filter(
        processes,
        |q: ProcessView| weight(q) >= weight(processes[i]),
        |q: ProcessView|
            0 < q.gpu_percent.rank <= 0x7ff0_0000_0000_0000
                && q.gpu_percent.rank >= processes[i].gpu_percent.rank,
    );
    law_selection_covers_every_ranking(processes, limit, p);
    assert(listed(processes, selection(processes, limit), processes[i].pid));
}

/// Each exported process is among the first `limit`, or fewer than `limit` have more
/// resident memory, or it has network bytes and fewer than `limit` have more of them, or
/// it has a share of the GPU and fewer than `limit` have a larger one.
pub proof fn law_the_selected_lead_somewhere(processes: Seq<ProcessView>, limit: nat, k: int)
    requires
        0 <= k < selection(processes, limit).len(),
    ensures
        ({
            let i = selection(processes, limit)[k];
            let chosen = processes[i];
            &&& 0 <= i < processes.len()
            &&& {
                ||| i < limit
                ||| processes.filter(|q: ProcessView| q.rss_bytes > chosen.rss_bytes).len() < limit
                ||| chosen.network_receive_bytes + chosen.network_transmit_bytes > 0
                    && processes.filter(
                    |q: ProcessView|
                        q.network_receive_bytes + q.network_transmit_bytes
                            > chosen.network_receive_bytes + chosen.network_transmit_bytes
                            && chosen.network_receive_bytes + chosen.network_transmit_bytes
                            < u64::MAX,
                ).len() < limit
                ||| 0 < chosen.gpu_percent.rank <= 0x7ff0_0000_0000_0000 && processes.filter(
                    |q: ProcessView|
                        0 < q.gpu_percent.rank <= 0x7ff0_0000_0000_0000
                            && q.gpu_percent.rank > chosen.gpu_percent.rank,
                ).len() < limit
            }
        }),
{
    law_selection_is_bounded(processes, limit);
    law_idle_processes_are_left_out(processes, limit, k);
    let i = selection(processes, limit)[k];
    let chosen = processes[i];
    let n = at_most(processes.len(), limit);
    if ranking(memory_keys(processes)).take(n).contains(i) {
        let weight = |q: ProcessView| q.rss_bytes as int;
        assert(memory_keys(processes) =~= processes.map_values(weight));
        lemma_leads(processes, memory_keys(processes), weight, n, i);
        lemma_same_filter(
            processes,
            |q: ProcessView| weight(q) > weight(chosen),
            |q: ProcessView| q.rss_bytes > chosen.rss_bytes,
        );
    } else if ranking(network_keys(processes)).take(n).contains(i) && network_bytes_of(chosen) > 0 {
        let weight = |q: ProcessView| network_bytes_of(q);
        assert(network_keys(processes) =~= processes.map_values(weight));
        lemma_leads(processes, network_keys(processes), weight, n, i);
        lemma_same_filter(
            processes,
            |q: ProcessView| weight(q) > weight(chosen),
            |q: ProcessView|
                q.network_receive_bytes + q.network_transmit_bytes > chosen.network_receive_bytes
                    + chosen.network_transmit_bytes && chosen.network_receive_bytes
                    + chosen.network_transmit_bytes < u64::MAX,
        );
    } else if ranking(gpu_keys(processes)).take(n).contains(i) && gpu_key_of(chosen) > 0 {
        let weight = |q: ProcessView| gpu_key_of(q);
        assert(gpu_keys(processes) =~= processes.map_values(weight));
        lemma_leads(processes, gpu_keys(processes), weight, n, i);
        lemma_same_filter(
            processes,
            |q: ProcessView| weight(q) > weight(chosen),
            |q: ProcessView|
                0 < q.gpu_percent.rank <= 0x7ff0_0000_0000_0000
                    && q.gpu_percent.rank > chosen.gpu_percent.rank,
        );
    }
}

proof fn lemma_leads(
    processes: Seq<ProcessView>,
    keys: Seq<int>,
    weight: spec_fn(ProcessView) -> int,
    n: int,
    i: int,
)
    requires
        keys == processes.map_values(weight),
        0 <= n <= keys.len(),
        ranking(keys).take(n).contains(i),
    ensures
        processes.filter(|q: ProcessView| weight(q) > weight(processes[i])).len() < n,
{
    lemma_ranking_exists(keys);
    let order = ranking(keys);
    let p = choose|p: int| 0 <= p < order.take(n).len() && order.take(n)[p] == i;
    assert(order[p] == i);
    law_a_rank_counts_the_larger(processes, weight, order, p);
}

proof fn lemma_same_filter(
    processes: Seq<ProcessView>,
    p: spec_fn(ProcessView) -> bool,
    q: spec_fn(ProcessView) -> bool,
)
    requires
        forall|item: ProcessView| #[trigger] p(item) == q(item),
    ensures
        processes.filter(p) == processes.filter(q),
    decreases processes.len(),
{
    reveal(Seq::filter);
    if processes.len() > 0 {
        lemma_same_filter(processes.drop_last(), p, q);
        assert(p(processes.last()) == q(processes.last()));
    }
}

proof fn lemma_origin(processes: Seq<ProcessView>, chosen: Seq<int>, candidates: Seq<int>, i: int)
    ensures
        with_all(processes, chosen, candidates).contains(i) ==> chosen.contains(i)
            || candidates.contains(i),
    decreases candidates.len(),
{
    let r = with_all(processes, chosen, candidates);
    if candidates.len() > 0 && r.contains(i) {
        let rest = candidates.drop_last();
        let before = with_all(processes, chosen, rest);
        lemma_origin(processes, chosen, rest, i);
        let k = choose|k: int| 0 <= k < r.len() && r[k] == i;
        if k < before.len() {
            assert(before[k] == i);
            if rest.contains(i) {
                let j = choose|j: int| 0 <= j < rest.len() && rest[j] == i;
                assert(candidates[j] == i);
            }
        } else {
            assert(candidates[candidates.len() - 1] == i);
        }
    }
}

proof fn lemma_rankings(processes: Seq<ProcessView>)
    ensures
        is_ranking(memory_keys(processes), ranking(memory_keys(processes))),
        is_ranking(network_keys(processes), ranking(network_keys(processes))),
        is_ranking(gpu_keys(processes), ranking(gpu_keys(processes))),
{
    lemma_ranking_exists(memory_keys(processes));
    lemma_ranking_exists(network_keys(processes));
    lemma_ranking_exists(gpu_keys(processes));
}

proof fn lemma_selection(processes: Seq<ProcessView>, limit: nat)
    ensures
        ({
            let n = at_most(processes.len(), limit);
            let r = selection(processes, limit);
            &&& in_range(processes, r)
            &&& n <= r.len() <= 4 * n
            &&& forall|k: int| 0 <= k < n ==> #[trigger] r[k] == k
            &&& forall|k: int|
                0 <= k < n ==> listed(
                    processes,
                    r,
                    processes[#[trigger] ranking(memory_keys(processes))[k]].pid,
                )
            &&& forall|k: int|
                0 <= k < n && network_keys(processes)[#[trigger] ranking(
                    network_keys(processes),
                )[k]] > 0 ==> listed(
                    processes,
                    r,
                    processes[ranking(network_keys(processes))[k]].pid,
                )
            &&& forall|k: int|
                0 <= k < n && gpu_keys(processes)[#[trigger] ranking(gpu_keys(processes))[k]] > 0
                    ==> listed(processes, r, processes[ranking(gpu_keys(processes))[k]].pid)
            &&& (forall|i: int, j: int|
                0 <= i < j < processes.len() ==> (#[trigger] processes[i]).pid != (
                #[trigger] processes[j]).pid) ==> distinct_ids(processes, r)
        }),
{
    lemma_rankings(processes);
    let n = at_most(processes.len(), limit);
    let cpu = Seq::new(n as nat, |i: int| i);
    let memory_order = ranking(memory_keys(processes));
    let network_order = ranking(network_keys(processes));
    let gpu_order = ranking(gpu_keys(processes));
    let memory = memory_order.take(n);
    let network = top(network_keys(processes), n);
    let gpu = top(gpu_keys(processes), n);
    lemma_leading(network_keys(processes), network_order, n);
    lemma_leading(gpu_keys(processes), gpu_order, n);
    assert(in_range(processes, memory)) by {
        assert forall|k: int| 0 <= k < memory.len() implies 0 <= #[trigger] memory[k]
            < processes.len() by {
            assert(memory[k] == memory_order[k]);
        }
    }
    assert(in_range(processes, network)) by {
        assert forall|k: int| 0 <= k < network.len() implies 0 <= #[trigger] network[k]
            < processes.len() by {
            assert(network[k] == network_order[k]);
        }
    }
    assert(in_range(processes, gpu)) by {
        assert forall|k: int| 0 <= k < gpu.len() implies 0 <= #[trigger] gpu[k]
            < processes.len() by {
            assert(gpu[k] == gpu_order[k]);
        }
    }
    let a = with_all(processes, cpu, memory);
    let b = with_all(processes, a, network);
    let c = with_all(processes, b, gpu);
    lemma_with_all(processes, cpu, memory);
    lemma_with_all(processes, a, network);
    lemma_with_all(processes, b, gpu);
    assert forall|k: int| 0 <= k < n implies #[trigger] c[k] == k by {
        assert(c[k] == c.take(b.len() as int)[k]);
        assert(b[k] == b.take(a.len() as int)[k]);
        assert(a[k] == a.take(cpu.len() as int)[k]);
    }
    assert forall|k: int| 0 <= k < n implies listed(
        processes,
        c,
        processes[#[trigger] memory_order[k]].pid,
    ) by {
        assert(memory[k] == memory_order[k]);
    }
    assert forall|k: int|
        0 <= k < n && network_keys(processes)[#[trigger] network_order[k]] > 0 implies listed(
        processes,
        c,
        processes[network_order[k]].pid,
    ) by {
        lemma_leading_is_a_prefix(network_keys(processes), network_order, n, k);
        assert(network[k] == network_order[k]);
    }
    assert forall|k: int|
        0 <= k < n && gpu_keys(processes)[#[trigger] gpu_order[k]] > 0 implies listed(
        processes,
        c,
        processes[gpu_order[k]].pid,
    ) by {
        lemma_leading_is_a_prefix(gpu_keys(processes), gpu_order, n, k);
        assert(gpu[k] == gpu_order[k]);
    }
}

proof fn lemma_leading_is_a_prefix(keys: Seq<int>, order: Seq<int>, limit: int, k: int)
    requires
        is_ranking(keys, order),
        0 <= k < limit <= order.len(),
        keys[order[k]] > 0,
    ensures
        k < leading(keys, order, limit),
{
    lemma_leading(keys, order, limit);
    let l = leading(keys, order, limit);
    if l < k {
        assert(outranks(keys, order[l], order[k]));
    }
}

/// Adds to the chosen processes those of the first `count` candidates whose ids are new.
fn add_new(
    processes: &Vec<Process>,
    chosen: &mut Vec<usize>,
    candidates: &Vec<usize>,
    count: usize,
)
    requires
        count <= candidates@.len(),
        in_range(views(processes@), positions(old(chosen)@)),
        in_range(views(processes@), positions(candidates@)),
    ensures
        positions(final(chosen)@) == with_all(
            views(processes@),
            positions(old(chosen)@),
            positions(candidates@).take(count as int),
        ),
        in_range(views(processes@), positions(final(chosen)@)),
{
    let ghost seen = views(processes@);
    let ghost order = positions(candidates@);
    let mut i: usize = 0;
    assert(order.take(0) =~= Seq::<int>::empty());
    while i < count
        invariant
            i <= count <= candidates@.len(),
            seen == views(processes@),
            order == positions(candidates@),
            in_range(seen, order),
            in_range(seen, positions(chosen@)),
            positions(chosen@) == with_all(seen, positions(old(chosen)@), order.take(i as int)),
        decreases count - i,
    {
        let candidate: usize = candidates[i];
        assert(order[i as int] == candidate);
        let pid: u32 = processes[candidate].pid;
        let ghost now = positions(chosen@);
        let mut known: bool = false;
        let mut k: usize = 0;
        while k < chosen.len() && !known
            invariant
                k <= chosen@.len(),
                seen == views(processes@),
                now == positions(chosen@),
                in_range(seen, now),
                known ==> listed(seen, now, pid),
                !known ==> forall|j: int| 0 <= j < k ==> seen[#[trigger] now[j]].pid != pid,
            decreases chosen@.len() - k + (if known {
                0int
            } else {
                1int
            }),
        {
            assert(now[k as int] == chosen@[k as int]);
            assert(seen[now[k as int]] == processes@[now[k as int]]@);
            if processes[chosen[k]].pid == pid {
                known = true;
            } else {
                k += 1;
            }
        }
        assert(seen[candidate as int].pid == pid);
        assert(known == listed(seen, now, pid));
        if !known {
            chosen.push(candidate);
            assert(positions(chosen@) =~= now.push(candidate as int));
        }
        assert(order.take(i + 1).drop_last() =~= order.take(i as int));
        assert(order.take(i + 1).last() == candidate);
        assert(in_range(seen, positions(chosen@))) by {
            assert forall|j: int| 0 <= j < positions(chosen@).len() implies
                0 <= #[trigger] positions(chosen@)[j] < seen.len() by {
                if j < now.len() {
                    assert(positions(chosen@)[j] == now[j]);
                }
            }
        }
        i += 1;
    }
}

/// How many of the first `limit` positions of a ranking have a key above zero.
fn count_leading(keys: &Vec<i128>, order: &Vec<usize>, limit: usize) -> (r: usize)
    requires
        is_ranking(key_numbers(keys@), positions(order@)),
        limit <= order@.len(),
    ensures
        r == leading(key_numbers(keys@), positions(order@), limit as int),
        r <= limit,
{
    let ghost k = key_numbers(keys@);
    let ghost o = positions(order@);
    let mut i: usize = 0;
    while i < limit
        invariant
            i <= limit <= order@.len(),
            k == key_numbers(keys@),
            o == positions(order@),
            is_ranking(k, o),
            leading(k, o, i as int) == i,
        decreases limit - i,
    {
        assert(o[i as int] == order@[i as int]);
        if keys[order[i]] <= 0 {
            proof {
                lemma_leading_stops(k, o, i as int, limit as int);
            }
            return i;
        }
        i += 1;
    }
    i
}

proof fn lemma_leading_stops(keys: Seq<int>, order: Seq<int>, at: int, limit: int)
    requires
        0 <= at < limit,
        leading(keys, order, at) == at,
        keys[order[at]] <= 0,
    ensures
        leading(keys, order, limit) == at,
    decreases limit,
{
    if limit > at + 1 {
        lemma_leading_stops(keys, order, at, limit - 1);
    }
}

/// The processes that are exported, by their positions.
pub fn select_processes(processes: &Vec<Process>, limit: usize) -> (r: Vec<usize>)
    ensures
        positions(r@) == selection(views(processes@), limit as nat),
        in_range(views(processes@), positions(r@)),
{
    let ghost seen = views(processes@);
    let n: usize = if processes.len() < limit {
        processes.len()
    } else {
        limit
    };
    let mut memory: Vec<i128> = Vec::new();
    let mut network: Vec<i128> = Vec::new();
    let mut gpu: Vec<i128> = Vec::new();
    let mut i: usize = 0;
    while i < processes.len()
        invariant
            i <= processes@.len(),
            seen == views(processes@),
            memory@.len() == i,
            network@.len() == i,
            gpu@.len() == i,
            forall|j: int| 0 <= j < i ==> #[trigger] memory@[j] == seen[j].rss_bytes,
            forall|j: int| 0 <= j < i ==> #[trigger] network@[j] == network_bytes_of(seen[j]),
            forall|j: int| 0 <= j < i ==> #[trigger] gpu@[j] == gpu_key_of(seen[j]),
        decreases processes@.len() - i,
    {
        let process: &Process = &processes[i];
        assert(seen[i as int] == process@);
        memory.push(process.rss_bytes as i128);
        network.push(process_network_bytes(process) as i128);
        gpu.push(
            if process.gpu_percent.is_positive() {
                process.gpu_percent.rank as i128
            } else {
                0
            },
        );
        i += 1;
    }
    proof {
        assert(key_numbers(memory@) =~= memory_keys(seen));
        assert(key_numbers(network@) =~= network_keys(seen));
        assert(key_numbers(gpu@) =~= gpu_keys(seen));
    }
    let by_memory: Vec<usize> = rank(&memory);
    let by_network: Vec<usize> = rank(&network);
    let by_gpu: Vec<usize> = rank(&gpu);
    let mut chosen: Vec<usize> = Vec::new();
    let mut k: usize = 0;
    while k < n
        invariant
            k <= n,
            chosen@.len() == k,
            forall|j: int| 0 <= j < k ==> #[trigger] chosen@[j] == j,
        decreases n - k,
    {
        chosen.push(k);
        k += 1;
    }
    assert(positions(chosen@) =~= Seq::new(n as nat, |i: int| i));
    add_new(processes, &mut chosen, &by_memory, n);
    let talkers: usize = count_leading(&network, &by_network, n);
    add_new(processes, &mut chosen, &by_network, talkers);
    let renderers: usize = count_leading(&gpu, &by_gpu, n);
    add_new(processes, &mut chosen, &by_gpu, renderers);
    chosen
}

} // verus!
