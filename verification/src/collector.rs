//! The collector: from what the kernel says at one moment, and what it said
//! before, to what is known of the host.

use crate::browser::{
    first_number, law_the_loads_read_back, leading_number, load_at, parse_browser_tabs,
    parse_loadavg, tabs_on,
};
use crate::clock::{passed_since, time_since, NANOSECONDS, Moment};
use crate::cpu::{
    cpu_times_of, cpu_usage, excess, frequencies_of, parse_cpu_times, read_cpu_frequencies,
    CpuError, CpuTimes, CpuUsage, FrequencyPolicy,
};
use crate::disk::{
    bytes_read, bytes_written, filesystems_on, parse_diskstats, parse_mountinfo, Space,
};
use crate::gpu::{
    busy_time, busy_times, charge, charged_vram, charges_of, gpu_share,
    law_an_unchanged_context_was_not_busy, loads_of, read_gpus, Card, CardLoad, DrmClient, Holding,
    HoldingView,
};
use crate::hwmon::{
    alarms_of, fans_of, read_electrical_readings, read_fans, read_power, read_temperature_alarms,
    read_temperature_limits, read_temperatures, readings_of, Chip, Electrical, Quantity, Reading,
};
use crate::list::{kept, lemma_kept_both, lemma_kept_next, lemma_kept_none, lemma_kept_source};
use crate::memory::{
    detect_page_size, law_an_unspoken_key_is_zero, law_meminfo_tells_the_last_amount, meminfo_of,
    page_size_of, parse_meminfo, silent_on, tells,
};
use crate::network::{
    networks_of, parse_process_network, physical_received, physical_sent, physical_totals,
    read_networks, traffic_on,
};
use crate::number::{real_number, wrapped};
use crate::nvme::{devices_of, due, read_nvme_smart, smart_due};
use crate::order::{arranged, law_arranged_is_sorted, sort, sorted, Ranked};
use crate::power_supply::{
    batteries_of, mains_among, read_battery_power, read_mains_supplies, Battery, PowerSupply,
};
use crate::process::{
    process_of, read_process, sound, ProcessFiles, ProcessFilesView, ProcessReading,
    ProcessReadingView,
};
use crate::selection::{law_selection_covers_every_ranking, selection};
use crate::snapshot::{
    BrowserTab, CpuFrequency, Fan, Filesystem, MainsSupply, NetworkInterface, NvmeSmart,
    NvmeSmartView, Process, ProcessView, TemperatureAlarm,
};
use crate::table::{lookup_or_zero, Table};
use crate::text::{
    blank, law_trimming_takes_the_blanks, optional_text, referred_text, text_lines, trim_text,
    trimmed, views, wordlike,
};
use std::collections::HashMap;
use vstd::prelude::*;

verus! {

/// What was read from the kernel and from the helpers at one moment. What is
/// optional could not be read where it is absent.
pub struct Sample {
    pub now: Moment,
    pub stat: Option<String>,
    pub meminfo: Option<String>,
    pub loadavg: Option<String>,
    pub uptime: Option<String>,
    pub net_dev: Option<String>,
    /// The interfaces that the kernel backs with a device.
    pub backed: Vec<String>,
    pub diskstats: Option<String>,
    /// The device numbers of the disks that are partitions of others.
    pub partitions: Vec<String>,
    pub chips: Vec<Chip>,
    pub supplies: Vec<PowerSupply>,
    pub policies: Vec<FrequencyPolicy>,
    pub cards: Vec<Card>,
    pub platform_profile: Option<String>,
    pub hostname: Option<String>,
    pub browser_tabs: Option<String>,
    /// The health log. What stands here counts only where the log is due.
    pub smart: Option<String>,
    pub mountinfo: String,
    pub spaces: Vec<Space>,
    pub process_network: Option<String>,
    /// The processes, absent where they could not be listed.
    pub processes: Option<Vec<ProcessFiles>>,
}

/// What a collection cannot do without.
#[derive(Clone, Copy, Debug, PartialEq, Eq, Structural)]
pub enum Source {
    Stat,
    Meminfo,
    Loadavg,
    Uptime,
    NetDev,
    Diskstats,
    Processes,
}

/// Why a collection failed.
#[derive(Clone, Copy, Debug, PartialEq, Eq, Structural)]
pub enum CollectError {
    /// A file, or the list of the processes, could not be read.
    Unreadable(Source),
    /// The CPU times say nothing.
    Cpu(CpuError),
}

/// What is known of a process.
#[derive(Debug)]
pub struct ProcessObservation {
    pub pid: u32,
    pub name: String,
    pub state: char,
    /// The time that the process spent since it was last seen, in clock ticks.
    pub ticks: u64,
    pub rss_bytes: u64,
    pub virtual_bytes: u64,
    pub threads: u64,
    pub read_bytes: u64,
    pub write_bytes: u64,
    pub network_receive_bytes: u64,
    pub network_transmit_bytes: u64,
    /// How much busier each graphics context is that the process is charged for.
    pub gpu_nanoseconds: Vec<u64>,
    pub gpu_vram_bytes: u64,
}

/// The view of `ProcessObservation`.
#[verifier::ext_equal]
pub struct ProcessObservationView {
    pub pid: u32,
    pub name: Seq<char>,
    pub state: char,
    pub ticks: u64,
    pub rss_bytes: u64,
    pub virtual_bytes: u64,
    pub threads: u64,
    pub read_bytes: u64,
    pub write_bytes: u64,
    pub network_receive_bytes: u64,
    pub network_transmit_bytes: u64,
    pub gpu_nanoseconds: Seq<u64>,
    pub gpu_vram_bytes: u64,
}

impl View for ProcessObservation {
    type V = ProcessObservationView;

    open spec fn view(&self) -> ProcessObservationView {
        ProcessObservationView {
            pid: self.pid,
            name: self.name@,
            state: self.state,
            ticks: self.ticks,
            rss_bytes: self.rss_bytes,
            virtual_bytes: self.virtual_bytes,
            threads: self.threads,
            read_bytes: self.read_bytes,
            write_bytes: self.write_bytes,
            network_receive_bytes: self.network_receive_bytes,
            network_transmit_bytes: self.network_transmit_bytes,
            gpu_nanoseconds: self.gpu_nanoseconds@,
            gpu_vram_bytes: self.gpu_vram_bytes,
        }
    }
}

/// What is known of the host.
pub struct Observation {
    /// When it was, in whole seconds since the epoch.
    pub timestamp: u64,
    /// The nanoseconds since the last collection, none where there was none or the
    /// clock went back.
    pub elapsed: u128,
    pub hostname: String,
    pub platform_profile: String,
    pub cpu: CpuUsage,
    pub cpu_count: usize,
    pub memory_total: u64,
    pub memory_available: u64,
    pub swap_total: u64,
    pub swap_free: u64,
    /// The load averages, as the kernel writes them.
    pub load: [String; 3],
    /// The uptime in seconds, as the kernel writes it.
    pub uptime: Option<String>,
    pub network_receive_bytes: u64,
    pub network_transmit_bytes: u64,
    pub networks: Vec<NetworkInterface>,
    pub disk_read_bytes: u64,
    pub disk_write_bytes: u64,
    pub processes_total: usize,
    pub processes_running: usize,
    pub processes: Vec<ProcessObservation>,
    pub fans: Vec<Fan>,
    pub temperatures: Vec<Reading>,
    pub power: Vec<Reading>,
    pub batteries: Vec<Battery>,
    pub voltages: Vec<Reading>,
    pub currents: Vec<Reading>,
    pub temperature_limits: Vec<Reading>,
    pub temperature_alarms: Vec<TemperatureAlarm>,
    pub cpu_frequencies: Vec<CpuFrequency>,
    pub gpus: Vec<CardLoad>,
    pub browser_tabs: Vec<BrowserTab>,
    pub mains_supplies: Vec<MainsSupply>,
    pub nvme_smart: Vec<NvmeSmart>,
    pub filesystems: Vec<Filesystem>,
}

/// The collector and what it remembers of the last collection.
pub struct Collector {
    page_size: u64,
    previous_cpu: CpuTimes,
    previous_process_cpu: HashMap<u32, u64>,
    previous_charges: Vec<Holding>,
    previous_timestamp: Option<Moment>,
    nvme_smart: Vec<NvmeSmart>,
    previous_smart_collection: Option<Moment>,
}

/// What a collector remembers.
#[verifier::ext_equal]
pub struct CollectorView {
    pub page_size: u64,
    pub cpu: CpuTimes,
    /// The ticks of each process.
    pub ticks: Map<u32, u64>,
    /// The graphics contexts and who was charged for them.
    pub charges: Seq<HoldingView>,
    /// The moment of the last collection.
    pub collected: Option<Moment>,
    pub nvme_smart: Seq<NvmeSmartView>,
    /// The moment at which the health log was last read.
    pub smart_read: Option<Moment>,
}

impl View for Collector {
    type V = CollectorView;

    closed spec fn view(&self) -> CollectorView {
        CollectorView {
            page_size: self.page_size,
            cpu: self.previous_cpu,
            ticks: self.previous_process_cpu@,
            charges: views(self.previous_charges@),
            collected: self.previous_timestamp,
            nvme_smart: views(self.nvme_smart@),
            smart_read: self.previous_smart_collection,
        }
    }
}

/// What a collector knows that has not collected anything.
pub open spec fn fresh(page_size: u64) -> CollectorView {
    CollectorView {
        page_size,
        cpu: CpuTimes { total: 0, idle: 0 },
        ticks: Map::empty(),
        charges: Seq::empty(),
        collected: None,
        nvme_smart: Seq::empty(),
        smart_read: None,
    }
}

/// What a file says, nothing where it could not be read.
pub open spec fn content(file: Option<String>) -> Seq<char> {
    match file {
        Some(text) => text@,
        None => ""@,
    }
}

/// The processes of a sample, none where they could not be listed.
pub open spec fn listed(sample: Sample) -> Seq<ProcessFilesView> {
    match sample.processes {
        Some(files) => views(files@),
        None => Seq::empty(),
    }
}

/// The CPU times and count of a sample whose files could be read, or what failed
/// first.
pub open spec fn examined(sample: Sample) -> Result<(CpuTimes, nat), CollectError> {
    if sample.stat is None {
        Err(CollectError::Unreadable(Source::Stat))
    } else {
        match cpu_times_of(content(sample.stat)) {
            Err(error) => Err(CollectError::Cpu(error)),
            Ok(read) => if sample.meminfo is None {
                Err(CollectError::Unreadable(Source::Meminfo))
            } else if sample.loadavg is None {
                Err(CollectError::Unreadable(Source::Loadavg))
            } else if sample.uptime is None {
                Err(CollectError::Unreadable(Source::Uptime))
            } else if sample.net_dev is None {
                Err(CollectError::Unreadable(Source::NetDev))
            } else if sample.diskstats is None {
                Err(CollectError::Unreadable(Source::Diskstats))
            } else {
                Ok(read)
            },
        }
    }
}

/// Why the collection of a sample fails, if it does. The processes are listed last.
pub open spec fn failure(sample: Sample) -> Option<CollectError> {
    match examined(sample) {
        Err(error) => Some(error),
        Ok(_) => if sample.processes is None {
            Some(CollectError::Unreadable(Source::Processes))
        } else {
            None
        },
    }
}

/// What the processes say that can be read, in their order.
pub open spec fn processes_of(files: Seq<ProcessFilesView>, page_size: u64) -> Seq<
    ProcessReadingView,
> {
    kept(files, |files: ProcessFilesView| process_of(files, page_size))
}

/// The ticks of each process.
pub open spec fn ticks_of(readings: Seq<ProcessReadingView>) -> Map<u32, u64>
    decreases readings.len(),
{
    if readings.len() == 0 {
        Map::empty()
    } else {
        ticks_of(readings.drop_last()).insert(readings.last().pid, readings.last().ticks)
    }
}

/// The graphics contexts in the hands of one process.
pub open spec fn held_by(reading: ProcessReadingView) -> Seq<HoldingView> {
    Seq::new(
        reading.clients.len(),
        |i: int| HoldingView { pid: reading.pid, client: reading.clients[i] },
    )
}

/// The graphics contexts in the hands of some processes, process by process.
pub open spec fn holdings_of(readings: Seq<ProcessReadingView>) -> Seq<HoldingView>
    decreases readings.len(),
{
    if readings.len() == 0 {
        Seq::empty()
    } else {
        holdings_of(readings.drop_last()) + held_by(readings.last())
    }
}

/// What the traffic table says, where it could be read.
pub open spec fn traffic_of(table: Option<Seq<char>>) -> Map<u32, (u64, u64)> {
    match table {
        Some(input) => traffic_on(text_lines(input)),
        None => Map::empty(),
    }
}

/// What a process spent since it was last seen. One that was not there before, or
/// whose counter went back, spent nothing.
pub open spec fn spent(previous: Map<u32, u64>, pid: u32, ticks: u64) -> u64 {
    if previous.contains_key(pid) {
        excess(ticks, previous[pid])
    } else {
        0
    }
}

/// The bytes that a process received and sent, by the traffic table.
pub open spec fn bytes_by(traffic: Map<u32, (u64, u64)>, pid: u32) -> (u64, u64) {
    if traffic.contains_key(pid) {
        traffic[pid]
    } else {
        (0, 0)
    }
}

/// What is known of a process: what it says, the traffic that is charged to it,
/// and how far its counters went since the last collection.
pub open spec fn process_observed(
    reading: ProcessReadingView,
    before: CollectorView,
    traffic: Map<u32, (u64, u64)>,
    charges: Seq<HoldingView>,
) -> ProcessObservationView {
    ProcessObservationView {
        pid: reading.pid,
        name: reading.name,
        state: reading.state,
        ticks: spent(before.ticks, reading.pid, reading.ticks),
        rss_bytes: reading.rss_bytes,
        virtual_bytes: reading.virtual_bytes,
        threads: reading.threads,
        read_bytes: reading.read_bytes,
        write_bytes: reading.write_bytes,
        network_receive_bytes: bytes_by(traffic, reading.pid).0,
        network_transmit_bytes: bytes_by(traffic, reading.pid).1,
        gpu_nanoseconds: busy_times(charges, before.charges, reading.pid),
        gpu_vram_bytes: wrapped(charged_vram(charges, reading.pid)),
    }
}

/// What is known of the processes.
pub open spec fn processes_observed(
    readings: Seq<ProcessReadingView>,
    before: CollectorView,
    traffic: Map<u32, (u64, u64)>,
) -> Seq<ProcessObservationView> {
    let charges = charges_of(holdings_of(readings));
    Seq::new(
        readings.len(),
        |i: int| process_observed(readings[i], before, traffic, charges),
    )
}

/// How many processes are running.
pub open spec fn running(readings: Seq<ProcessReadingView>) -> nat
    decreases readings.len(),
{
    if readings.len() == 0 {
        0
    } else {
        running(readings.drop_last()) + if readings.last().state == 'R' {
            1nat
        } else {
            0
        }
    }
}

/// The health log after a collection: read again where that was due, and kept
/// otherwise.
pub open spec fn smart_after(before: CollectorView, sample: Sample) -> Seq<NvmeSmartView> {
    if due(before.smart_read, sample.now) {
        devices_of(optional_text(sample.smart))
    } else {
        before.nvme_smart
    }
}

/// What the collector knows once it has looked to the health log.
pub open spec fn with_smart(before: CollectorView, sample: Sample) -> CollectorView {
    CollectorView {
        nvme_smart: smart_after(before, sample),
        smart_read: if due(before.smart_read, sample.now) {
            Some(sample.now)
        } else {
            before.smart_read
        },
        ..before
    }
}

/// What the collector remembers after a collection that did not fail.
pub open spec fn remembered(before: CollectorView, sample: Sample, cpu: CpuTimes) -> CollectorView {
    let readings = processes_of(listed(sample), before.page_size);
    CollectorView {
        cpu,
        ticks: ticks_of(readings),
        charges: charges_of(holdings_of(readings)),
        collected: Some(sample.now),
        ..with_smart(before, sample)
    }
}

/// What the collector remembers after a collection. One that failed leaves what was
/// known; if only the processes could not be listed, the health log was read before.
pub open spec fn after(before: CollectorView, sample: Sample) -> CollectorView {
    match examined(sample) {
        Err(_) => before,
        Ok((cpu, _)) => if sample.processes is None {
            with_smart(before, sample)
        } else {
            remembered(before, sample, cpu)
        },
    }
}

/// What the collector remembers after several collections.
pub open spec fn after_all(before: CollectorView, samples: Seq<Sample>) -> CollectorView
    decreases samples.len(),
{
    if samples.len() == 0 {
        before
    } else {
        after(after_all(before, samples.drop_last()), samples.last())
    }
}

/// The nanoseconds since the last collection, none where there was none or the clock
/// went back.
pub open spec fn elapsed_of(before: CollectorView, sample: Sample) -> nat {
    match passed_since(before.collected, sample.now) {
        Some(passed) => passed,
        None => 0,
    }
}

/// What is known of the host itself: the time, its name, memory, load and disks.
pub open spec fn host_observed(
    before: CollectorView,
    sample: Sample,
    cpu: CpuTimes,
    cpu_count: nat,
    observation: Observation,
) -> bool {
    &&& observation.timestamp == sample.now.stamp()
    &&& observation.elapsed == elapsed_of(before, sample)
    &&& observation.hostname@ == match sample.hostname {
        Some(name) => trimmed(name@),
        None => "unknown"@,
    }
    &&& observation.platform_profile@ == match sample.platform_profile {
        Some(profile) => trimmed(profile@),
        None => Seq::empty(),
    }
    &&& observation.cpu.total == excess(cpu.total, before.cpu.total)
    &&& observation.cpu.busy == excess(observation.cpu.total, excess(cpu.idle, before.cpu.idle))
    &&& observation.cpu_count == cpu_count
    &&& observation.memory_total == lookup_or_zero(meminfo_of(content(sample.meminfo)), "MemTotal"@)
    &&& observation.memory_available == lookup_or_zero(
        meminfo_of(content(sample.meminfo)),
        "MemAvailable"@,
    )
    &&& observation.swap_total == lookup_or_zero(meminfo_of(content(sample.meminfo)), "SwapTotal"@)
    &&& observation.swap_free == lookup_or_zero(meminfo_of(content(sample.meminfo)), "SwapFree"@)
    &&& observation.load@[0]@ == load_at(content(sample.loadavg), 0)
    &&& observation.load@[1]@ == load_at(content(sample.loadavg), 1)
    &&& observation.load@[2]@ == load_at(content(sample.loadavg), 2)
    &&& optional_text(observation.uptime) == leading_number(content(sample.uptime))
    &&& views(observation.networks@) == networks_of(content(sample.net_dev), sample.backed@)
    &&& observation.network_receive_bytes == wrapped(
        physical_received(views(observation.networks@)),
    )
    &&& observation.network_transmit_bytes == wrapped(physical_sent(views(observation.networks@)))
    &&& observation.disk_read_bytes == wrapped(
        bytes_read(text_lines(content(sample.diskstats)), sample.partitions@),
    )
    &&& observation.disk_write_bytes == wrapped(
        bytes_written(text_lines(content(sample.diskstats)), sample.partitions@),
    )
    &&& views(observation.filesystems@) == arranged::<Filesystem>(
        filesystems_on(text_lines(sample.mountinfo@), sample.spaces@),
    )
    &&& views(observation.browser_tabs@) == match sample.browser_tabs {
        Some(table) => tabs_on(text_lines(table@)),
        None => Seq::empty(),
    }
}

/// What is known of the sensors, the power supplies and the cards.
pub open spec fn devices_observed(
    before: CollectorView,
    sample: Sample,
    observation: Observation,
) -> bool {
    let chips = views(sample.chips@);
    &&& views(observation.fans@) == arranged::<Fan>(fans_of(chips))
    &&& views(observation.temperatures@) == arranged::<Reading>(
        readings_of(chips, Quantity::Temperature),
    )
    &&& views(observation.power@) == arranged::<Reading>(readings_of(chips, Quantity::Power))
    &&& views(observation.voltages@) == arranged::<Reading>(readings_of(chips, Quantity::Voltage))
    &&& views(observation.currents@) == arranged::<Reading>(readings_of(chips, Quantity::Current))
    &&& views(observation.temperature_limits@) == arranged::<Reading>(
        readings_of(chips, Quantity::Limit),
    )
    &&& views(observation.temperature_alarms@) == arranged::<TemperatureAlarm>(alarms_of(chips))
    &&& views(observation.batteries@) == arranged::<Battery>(batteries_of(views(sample.supplies@)))
    &&& views(observation.mains_supplies@) == arranged::<MainsSupply>(
        mains_among(views(sample.supplies@)),
    )
    &&& views(observation.cpu_frequencies@) == arranged::<CpuFrequency>(
        frequencies_of(views(sample.policies@)),
    )
    &&& views(observation.gpus@) == arranged::<CardLoad>(loads_of(views(sample.cards@)))
    &&& views(observation.nvme_smart@) == smart_after(before, sample)
}

/// What is known of the processes.
pub open spec fn tasks_observed(
    before: CollectorView,
    sample: Sample,
    observation: Observation,
) -> bool {
    let readings = processes_of(listed(sample), before.page_size);
    &&& views(observation.processes@) == processes_observed(
        readings,
        before,
        traffic_of(optional_text(sample.process_network)),
    )
    &&& observation.processes_total == readings.len()
    &&& observation.processes_running == running(readings)
}

/// Whether every process has a `stat` of the shape that the kernel gives it.
pub open spec fn all_sound(files: Seq<ProcessFilesView>) -> bool {
    forall|i: int| 0 <= i < files.len() ==> sound(#[trigger] files[i])
}

fn read_processes(files: &Vec<ProcessFiles>, page_size: u64) -> (r: Vec<ProcessReading>)
    requires
        all_sound(views(files@)),
    ensures
        views(r@) == processes_of(views(files@), page_size),
{
    let ghost seen = views(files@);
    let ghost f = |files: ProcessFilesView| process_of(files, page_size);
    let mut r: Vec<ProcessReading> = Vec::new();
    let mut i: usize = 0;
    proof {
        lemma_kept_none(seen, f);
        assert(views(r@) =~= Seq::<ProcessReadingView>::empty());
    }
    while i < files.len()
        invariant
            i <= files@.len(),
            seen == views(files@),
            all_sound(seen),
            f == |files: ProcessFilesView| process_of(files, page_size),
            views(r@) == kept(seen.take(i as int), f),
        decreases files@.len() - i,
    {
        let ghost before = views(r@);
        proof {
            lemma_kept_next(seen, f, i as int);
            assert(seen[i as int] == files@[i as int]@);
        }
        if let Some(reading) = read_process(&files[i], page_size) {
            let ghost found = reading@;
            r.push(reading);
            assert(views(r@) =~= before.push(found));
        }
        i += 1;
    }
    r
}

fn ticks_by_process(readings: &Vec<ProcessReading>) -> (r: HashMap<u32, u64>)
    ensures
        r@ == ticks_of(views(readings@)),
{
    broadcast use vstd::std_specs::hash::group_hash_axioms;

    let ghost seen = views(readings@);
    let mut r: HashMap<u32, u64> = HashMap::new();
    let mut i: usize = 0;
    assert(seen.take(0) =~= Seq::<ProcessReadingView>::empty());
    while i < readings.len()
        invariant
            i <= readings@.len(),
            seen == views(readings@),
            r@ == ticks_of(seen.take(i as int)),
        decreases readings@.len() - i,
    {
        assert(seen.take(i + 1).drop_last() =~= seen.take(i as int));
        assert(seen.take(i + 1).last() == readings@[i as int]@);
        r.insert(readings[i].pid, readings[i].ticks);
        i += 1;
    }
    assert(seen.take(i as int) =~= seen);
    r
}

fn push_holdings(out: &mut Vec<Holding>, reading: &ProcessReading)
    ensures
        views(final(out)@) == views(old(out)@) + held_by(reading@),
{
    let ghost start = views(out@);
    let ghost all = held_by(reading@);
    let clients: &Vec<DrmClient> = &reading.clients;
    let mut i: usize = 0;
    assert(views(out@) =~= start + all.take(0));
    while i < clients.len()
        invariant
            i <= clients@.len(),
            clients@ == reading.clients@,
            all == held_by(reading@),
            views(out@) == start + all.take(i as int),
        decreases clients@.len() - i,
    {
        let client: &DrmClient = &clients[i];
        let ghost before = views(out@);
        let holding = Holding {
            pid: reading.pid,
            client: DrmClient {
                key: (client.key.0.clone(), client.key.1),
                nanoseconds: client.nanoseconds,
                vram_bytes: client.vram_bytes,
                descriptors: client.descriptors,
            },
        };
        let ghost new = holding@;
        assert(reading@.clients[i as int] == client@);
        assert(new == all[i as int]);
        out.push(holding);
        assert(views(out@) =~= before.push(new));
        assert(views(out@) =~= start + all.take(i + 1));
        i += 1;
    }
    assert(all.take(i as int) =~= all);
}

fn all_holdings(readings: &Vec<ProcessReading>) -> (r: Vec<Holding>)
    ensures
        views(r@) == holdings_of(views(readings@)),
{
    let ghost seen = views(readings@);
    let mut r: Vec<Holding> = Vec::new();
    let mut i: usize = 0;
    assert(views(r@) =~= holdings_of(seen.take(0)));
    while i < readings.len()
        invariant
            i <= readings@.len(),
            seen == views(readings@),
            views(r@) == holdings_of(seen.take(i as int)),
        decreases readings@.len() - i,
    {
        assert(seen.take(i + 1).drop_last() =~= seen.take(i as int));
        assert(seen.take(i + 1).last() == readings@[i as int]@);
        push_holdings(&mut r, &readings[i]);
        i += 1;
    }
    assert(seen.take(i as int) =~= seen);
    r
}

fn read_traffic(table: &Option<String>) -> (r: HashMap<u32, (u64, u64)>)
    ensures
        r@ == traffic_of(optional_text(*table)),
{
    broadcast use vstd::std_specs::hash::group_hash_axioms;

    match table {
        Some(input) => parse_process_network(input.as_str()),
        None => HashMap::new(),
    }
}

fn count_running(readings: &Vec<ProcessReading>) -> (r: usize)
    ensures
        r == running(views(readings@)),
{
    let ghost seen = views(readings@);
    let mut r: usize = 0;
    let mut i: usize = 0;
    while i < readings.len()
        invariant
            i <= readings@.len(),
            seen == views(readings@),
            r <= i,
            r == running(seen.take(i as int)),
        decreases readings@.len() - i,
    {
        assert(seen.take(i + 1).drop_last() =~= seen.take(i as int));
        assert(seen.take(i + 1).last() == readings@[i as int]@);
        if readings[i].state == 'R' {
            r += 1;
        }
        i += 1;
    }
    assert(seen.take(i as int) =~= seen);
    r
}

fn copy_smart(smart: &NvmeSmart) -> (r: NvmeSmart)
    ensures
        r@ == smart@,
{
    NvmeSmart {
        device: smart.device.clone(),
        percentage_used: smart.percentage_used,
        available_spare: smart.available_spare,
        available_spare_threshold: smart.available_spare_threshold,
        critical_warning: smart.critical_warning,
        data_units_read: smart.data_units_read,
        data_units_written: smart.data_units_written,
        power_cycles: smart.power_cycles,
        power_on_hours: smart.power_on_hours,
        unsafe_shutdowns: smart.unsafe_shutdowns,
        media_errors: smart.media_errors,
        error_log_entries: smart.error_log_entries,
    }
}

fn copy_all_smart(devices: &Vec<NvmeSmart>) -> (r: Vec<NvmeSmart>)
    ensures
        views(r@) == views(devices@),
{
    let ghost seen = views(devices@);
    let mut r: Vec<NvmeSmart> = Vec::new();
    let mut i: usize = 0;
    assert(views(r@) =~= seen.take(0));
    while i < devices.len()
        invariant
            i <= devices@.len(),
            seen == views(devices@),
            views(r@) == seen.take(i as int),
        decreases devices@.len() - i,
    {
        let ghost before = views(r@);
        let copy: NvmeSmart = copy_smart(&devices[i]);
        let ghost new = copy@;
        r.push(copy);
        assert(views(r@) =~= before.push(new));
        assert(views(r@) =~= seen.take(i + 1));
        i += 1;
    }
    assert(seen.take(i as int) =~= seen);
    r
}

fn reference(text: &Option<String>) -> (r: Option<&String>)
    ensures
        referred_text(r) == optional_text(*text),
{
    match text {
        Some(text) => Some(text),
        None => None,
    }
}

fn text_of(file: &Option<String>) -> (r: &str)
    ensures
        r@ == content(*file),
{
    match file {
        Some(text) => text.as_str(),
        None => "",
    }
}

fn examine(sample: &Sample) -> (r: Result<(CpuTimes, usize), CollectError>)
    ensures
        match (r, examined(*sample)) {
            (Ok((cpu, count)), Ok((times, counted))) => cpu == times && count == counted,
            (Err(error), Err(expected)) => error == expected,
            _ => false,
        },
{
    if sample.stat.is_none() {
        return Err(CollectError::Unreadable(Source::Stat));
    }
    let read: (CpuTimes, usize) = match parse_cpu_times(text_of(&sample.stat)) {
        Ok(read) => read,
        Err(error) => {
            return Err(CollectError::Cpu(error));
        },
    };
    if sample.meminfo.is_none() {
        Err(CollectError::Unreadable(Source::Meminfo))
    } else if sample.loadavg.is_none() {
        Err(CollectError::Unreadable(Source::Loadavg))
    } else if sample.uptime.is_none() {
        Err(CollectError::Unreadable(Source::Uptime))
    } else if sample.net_dev.is_none() {
        Err(CollectError::Unreadable(Source::NetDev))
    } else if sample.diskstats.is_none() {
        Err(CollectError::Unreadable(Source::Diskstats))
    } else {
        Ok(read)
    }
}

impl Collector {
    /// A collector that has not collected anything, for pages of the size that the
    /// kernel's `smaps` gives.
    pub fn new(smaps: Option<&String>) -> (r: Collector)
        ensures
            r@ == fresh(page_size_of(referred_text(smaps))),
    {
        broadcast use vstd::std_specs::hash::group_hash_axioms;

        let r = Collector {
            page_size: detect_page_size(smaps),
            previous_cpu: CpuTimes { total: 0, idle: 0 },
            previous_process_cpu: HashMap::new(),
            previous_charges: Vec::new(),
            previous_timestamp: None,
            nvme_smart: Vec::new(),
            previous_smart_collection: None,
        };
        assert(views(r.previous_charges@) =~= Seq::<HoldingView>::empty());
        assert(views(r.nvme_smart@) =~= Seq::<NvmeSmartView>::empty());
        r
    }

    /// Whether a collection now would read the health log again.
    pub fn wants_smart(&self, now: Moment) -> (r: bool)
        ensures
            r == due(self@.smart_read, now),
    {
        smart_due(self.previous_smart_collection, now)
    }

    fn refresh_smart(&mut self, sample: &Sample)
        ensures
            final(self)@ == with_smart(old(self)@, *sample),
    {
        if self.wants_smart(sample.now) {
            self.nvme_smart = read_nvme_smart(reference(&sample.smart));
            self.previous_smart_collection = Some(sample.now);
        }
    }

    fn observe_process(
        &self,
        reading: &ProcessReading,
        traffic: &HashMap<u32, (u64, u64)>,
        charges: &Vec<Holding>,
    ) -> (r: ProcessObservation)
        ensures
            r@ == process_observed(reading@, self@, traffic@, views(charges@)),
    {
        broadcast use vstd::std_specs::hash::group_hash_axioms;

        let pid: u32 = reading.pid;
        let ticks: u64 = match self.previous_process_cpu.get(&pid) {
            Some(previous) => reading.ticks.saturating_sub(*previous),
            None => 0,
        };
        let bytes: (u64, u64) = match traffic.get(&pid) {
            Some(bytes) => *bytes,
            None => (0, 0),
        };
        let share: (Vec<u64>, u64) = gpu_share(charges, &self.previous_charges, pid);
        ProcessObservation {
            pid,
            name: reading.name.clone(),
            state: reading.state,
            ticks,
            rss_bytes: reading.rss_bytes,
            virtual_bytes: reading.virtual_bytes,
            threads: reading.threads,
            read_bytes: reading.read_bytes,
            write_bytes: reading.write_bytes,
            network_receive_bytes: bytes.0,
            network_transmit_bytes: bytes.1,
            gpu_nanoseconds: share.0,
            gpu_vram_bytes: share.1,
        }
    }

    fn observe_processes(
        &self,
        readings: &Vec<ProcessReading>,
        traffic: &HashMap<u32, (u64, u64)>,
        charges: &Vec<Holding>,
    ) -> (r: Vec<ProcessObservation>)
        requires
            views(charges@) == charges_of(holdings_of(views(readings@))),
        ensures
            views(r@) == processes_observed(views(readings@), self@, traffic@),
    {
        let ghost seen = views(readings@);
        let ghost all = processes_observed(seen, self@, traffic@);
        let mut r: Vec<ProcessObservation> = Vec::new();
        let mut i: usize = 0;
        assert(views(r@) =~= all.take(0));
        while i < readings.len()
            invariant
                i <= readings@.len(),
                seen == views(readings@),
                views(charges@) == charges_of(holdings_of(seen)),
                all == processes_observed(seen, self@, traffic@),
                views(r@) == all.take(i as int),
            decreases readings@.len() - i,
        {
            let ghost before = views(r@);
            assert(seen[i as int] == readings@[i as int]@);
            let observation: ProcessObservation = self.observe_process(
                &readings[i],
                traffic,
                charges,
            );
            let ghost new = observation@;
            assert(new == all[i as int]);
            r.push(observation);
            assert(views(r@) =~= before.push(new));
            assert(views(r@) =~= all.take(i + 1));
            i += 1;
        }
        assert(all.take(i as int) =~= all);
        r
    }

    /// Collects: reads a sample, compares its counters with those of the last
    /// collection, and remembers them for the next. Where it fails, the counters and
    /// the moment of the last collection stay.
    pub fn collect(&mut self, sample: &Sample) -> (r: Result<Observation, CollectError>)
        requires
            all_sound(listed(*sample)),
        ensures
            final(self)@ == after(old(self)@, *sample),
            match r {
                Ok(observation) => {
                    &&& failure(*sample) is None
                    &&& examined(*sample) matches Ok((cpu, count))
                    &&& host_observed(old(self)@, *sample, cpu, count, observation)
                    &&& devices_observed(old(self)@, *sample, observation)
                    &&& tasks_observed(old(self)@, *sample, observation)
                    &&& forall|kilobytes: u64|
                        kilobytes * 1024 <= u64::MAX && #[trigger] tells(
                            content(sample.meminfo),
                            "MemTotal"@,
                            kilobytes,
                        ) ==> observation.memory_total == kilobytes * 1024
                    &&& forall|kilobytes: u64|
                        kilobytes * 1024 <= u64::MAX && #[trigger] tells(
                            content(sample.meminfo),
                            "MemAvailable"@,
                            kilobytes,
                        ) ==> observation.memory_available == kilobytes * 1024
                    &&& forall|kilobytes: u64|
                        kilobytes * 1024 <= u64::MAX && #[trigger] tells(
                            content(sample.meminfo),
                            "SwapTotal"@,
                            kilobytes,
                        ) ==> observation.swap_total == kilobytes * 1024
                    &&& forall|kilobytes: u64|
                        kilobytes * 1024 <= u64::MAX && #[trigger] tells(
                            content(sample.meminfo),
                            "SwapFree"@,
                            kilobytes,
                        ) ==> observation.swap_free == kilobytes * 1024
                },
                Err(error) => failure(*sample) == Some(error),
            },
    {
        let ghost before = self@;
        let (cpu, cpu_count) = match examine(sample) {
            Ok(read) => read,
            Err(error) => {
                return Err(error);
            },
        };
        self.refresh_smart(sample);
        let files: &Vec<ProcessFiles> = match &sample.processes {
            Some(files) => files,
            None => {
                return Err(CollectError::Unreadable(Source::Processes));
            },
        };
        let elapsed: u128 = match time_since(self.previous_timestamp, sample.now) {
            Some(passed) => passed,
            None => 0,
        };
        let memory: Table = parse_meminfo(text_of(&sample.meminfo));
        let networks: Vec<NetworkInterface> = read_networks(
            text_of(&sample.net_dev),
            &sample.backed,
        );
        let totals: (u64, u64) = physical_totals(&networks);
        let disks: (u64, u64) = parse_diskstats(text_of(&sample.diskstats), &sample.partitions);
        let browser_tabs: Vec<BrowserTab> = match &sample.browser_tabs {
            Some(table) => parse_browser_tabs(table.as_str()),
            None => Vec::new(),
        };
        let readings: Vec<ProcessReading> = read_processes(files, self.page_size);
        let charges: Vec<Holding> = charge(all_holdings(&readings));
        let traffic: HashMap<u32, (u64, u64)> = read_traffic(&sample.process_network);
        let processes: Vec<ProcessObservation> = self.observe_processes(
            &readings,
            &traffic,
            &charges,
        );
        assert(views(processes@) =~= processes_observed(views(readings@), before, traffic@));
        let usage: CpuUsage = cpu_usage(self.previous_cpu, cpu);
        let observation = Observation {
            timestamp: sample.now.timestamp(),
            elapsed,
            hostname: match &sample.hostname {
                Some(name) => trim_text(name.as_str()),
                None => "unknown".to_owned(),
            },
            platform_profile: match &sample.platform_profile {
                Some(profile) => trim_text(profile.as_str()),
                None => String::new(),
            },
            cpu: usage,
            cpu_count,
            memory_total: memory.get_or_zero("MemTotal"),
            memory_available: memory.get_or_zero("MemAvailable"),
            swap_total: memory.get_or_zero("SwapTotal"),
            swap_free: memory.get_or_zero("SwapFree"),
            load: parse_loadavg(text_of(&sample.loadavg)),
            uptime: first_number(text_of(&sample.uptime)),
            network_receive_bytes: totals.0,
            network_transmit_bytes: totals.1,
            networks,
            disk_read_bytes: disks.0,
            disk_write_bytes: disks.1,
            processes_total: readings.len(),
            processes_running: count_running(&readings),
            processes,
            fans: read_fans(&sample.chips),
            temperatures: read_temperatures(&sample.chips),
            power: read_power(&sample.chips),
            batteries: read_battery_power(&sample.supplies),
            voltages: read_electrical_readings(&sample.chips, Electrical::Voltage),
            currents: read_electrical_readings(&sample.chips, Electrical::Current),
            temperature_limits: read_temperature_limits(&sample.chips),
            temperature_alarms: read_temperature_alarms(&sample.chips),
            cpu_frequencies: read_cpu_frequencies(&sample.policies),
            gpus: read_gpus(&sample.cards),
            browser_tabs,
            mains_supplies: read_mains_supplies(&sample.supplies),
            nvme_smart: copy_all_smart(&self.nvme_smart),
            filesystems: parse_mountinfo(sample.mountinfo.as_str(), &sample.spaces),
        };
        self.previous_cpu = cpu;
        self.previous_process_cpu = ticks_by_process(&readings);
        self.previous_charges = charges;
        self.previous_timestamp = Some(sample.now);
        assert(views(observation.processes@).len() == observation.processes@.len());
        assert(views(observation.browser_tabs@) =~= match sample.browser_tabs {
            Some(table) => tabs_on(text_lines(table@)),
            None => Seq::empty(),
        });
        proof {
            lemma_meminfo_fields(content(sample.meminfo));
        }
        Ok(observation)
    }
}

/// The last line on each amount of memory tells what is looked up.
proof fn lemma_meminfo_fields(text: Seq<char>)
    ensures
        forall|kilobytes: u64|
            kilobytes * 1024 <= u64::MAX && #[trigger] tells(text, "MemTotal"@, kilobytes)
                ==> lookup_or_zero(meminfo_of(text), "MemTotal"@) == kilobytes * 1024,
        forall|kilobytes: u64|
            kilobytes * 1024 <= u64::MAX && #[trigger] tells(text, "MemAvailable"@, kilobytes)
                ==> lookup_or_zero(meminfo_of(text), "MemAvailable"@) == kilobytes * 1024,
        forall|kilobytes: u64|
            kilobytes * 1024 <= u64::MAX && #[trigger] tells(text, "SwapTotal"@, kilobytes)
                ==> lookup_or_zero(meminfo_of(text), "SwapTotal"@) == kilobytes * 1024,
        forall|kilobytes: u64|
            kilobytes * 1024 <= u64::MAX && #[trigger] tells(text, "SwapFree"@, kilobytes)
                ==> lookup_or_zero(meminfo_of(text), "SwapFree"@) == kilobytes * 1024,
{
    reveal_strlit("MemTotal");
    reveal_strlit("MemAvailable");
    reveal_strlit("SwapTotal");
    reveal_strlit("SwapFree");
    assert forall|kilobytes: u64|
        kilobytes * 1024 <= u64::MAX && #[trigger] tells(text, "MemTotal"@, kilobytes)
            implies lookup_or_zero(
        meminfo_of(text),
        "MemTotal"@,
    ) == kilobytes * 1024 by {
        law_meminfo_tells_the_last_amount(text, "MemTotal"@, kilobytes);
    }
    assert forall|kilobytes: u64|
        kilobytes * 1024 <= u64::MAX && #[trigger] tells(text, "MemAvailable"@, kilobytes)
            implies lookup_or_zero(
        meminfo_of(text),
        "MemAvailable"@,
    ) == kilobytes * 1024 by {
        law_meminfo_tells_the_last_amount(text, "MemAvailable"@, kilobytes);
    }
    assert forall|kilobytes: u64|
        kilobytes * 1024 <= u64::MAX && #[trigger] tells(text, "SwapTotal"@, kilobytes)
            implies lookup_or_zero(
        meminfo_of(text),
        "SwapTotal"@,
    ) == kilobytes * 1024 by {
        law_meminfo_tells_the_last_amount(text, "SwapTotal"@, kilobytes);
    }
    assert forall|kilobytes: u64|
        kilobytes * 1024 <= u64::MAX && #[trigger] tells(text, "SwapFree"@, kilobytes)
            implies lookup_or_zero(
        meminfo_of(text),
        "SwapFree"@,
    ) == kilobytes * 1024 by {
        law_meminfo_tells_the_last_amount(text, "SwapFree"@, kilobytes);
    }
}

/// Where the last lines on memory and swap space tell so many kilobytes, a collection
/// finds so many times 1024 bytes: of memory in all and available, of swap space in all
/// and free. What is free of the swap space is then no more than there is.
pub proof fn law_memory_is_what_its_lines_tell(
    before: CollectorView,
    sample: Sample,
    cpu: CpuTimes,
    cpu_count: nat,
    observation: Observation,
    memory: u64,
    available: u64,
    swap: u64,
    free: u64,
)
    requires
        host_observed(before, sample, cpu, cpu_count, observation),
        sample.meminfo is Some,
        tells(sample.meminfo->0@, "MemTotal"@, memory),
        tells(sample.meminfo->0@, "MemAvailable"@, available),
        tells(sample.meminfo->0@, "SwapTotal"@, swap),
        tells(sample.meminfo->0@, "SwapFree"@, free),
        memory * 1024 <= u64::MAX,
        available * 1024 <= u64::MAX,
        swap * 1024 <= u64::MAX,
        free * 1024 <= u64::MAX,
    ensures
        observation.memory_total == memory * 1024,
        observation.memory_available == available * 1024,
        observation.swap_total == swap * 1024,
        observation.swap_free == free * 1024,
        free <= swap ==> observation.swap_free <= observation.swap_total,
        available <= memory ==> observation.memory_available <= observation.memory_total,
{
    lemma_meminfo_fields(sample.meminfo->0@);
}

/// An amount of memory or swap space that no line speaks of is found to be zero.
pub proof fn law_untold_memory_is_zero(
    before: CollectorView,
    sample: Sample,
    cpu: CpuTimes,
    cpu_count: nat,
    observation: Observation,
)
    requires
        host_observed(before, sample, cpu, cpu_count, observation),
        sample.meminfo is Some,
    ensures
        silent_on(sample.meminfo->0@, "MemTotal"@) ==> observation.memory_total == 0,
        silent_on(sample.meminfo->0@, "MemAvailable"@) ==> observation.memory_available == 0,
        silent_on(sample.meminfo->0@, "SwapTotal"@) ==> observation.swap_total == 0,
        silent_on(sample.meminfo->0@, "SwapFree"@) ==> observation.swap_free == 0,
{
    let text = sample.meminfo->0@;
    if silent_on(text, "MemTotal"@) {
        law_an_unspoken_key_is_zero(text, "MemTotal"@);
    }
    if silent_on(text, "MemAvailable"@) {
        law_an_unspoken_key_is_zero(text, "MemAvailable"@);
    }
    if silent_on(text, "SwapTotal"@) {
        law_an_unspoken_key_is_zero(text, "SwapTotal"@);
    }
    if silent_on(text, "SwapFree"@) {
        law_an_unspoken_key_is_zero(text, "SwapFree"@);
    }
}

/// The times, the names and the loads of a collection are those of the sample: the
/// difference of the CPU's counters, of which what it did not idle was busy, and the time
/// since the last collection.
pub proof fn law_the_host_is_as_it_was_read(
    before: CollectorView,
    sample: Sample,
    cpu: CpuTimes,
    cpu_count: nat,
    observation: Observation,
)
    requires
        host_observed(before, sample, cpu, cpu_count, observation),
    ensures
        observation.cpu_count == cpu_count,
        sample.hostname is None ==> observation.hostname@ == "unknown"@,
        sample.platform_profile is None ==> observation.platform_profile@.len() == 0,
        sample.browser_tabs is None ==> observation.browser_tabs@.len() == 0,
        forall|blanks: Seq<char>, name: Seq<char>, rest: Seq<char>|
            sample.hostname is Some && blank(blanks) && wordlike(name) && blank(rest)
                && sample.hostname->0@ == #[trigger] (blanks + name + rest)
                ==> observation.hostname@ == name,
        forall|blanks: Seq<char>, name: Seq<char>, rest: Seq<char>|
            sample.platform_profile is Some && blank(blanks) && wordlike(name) && blank(rest)
                && sample.platform_profile->0@ == #[trigger] (blanks + name + rest)
                ==> observation.platform_profile@ == name,
        before.cpu.total <= cpu.total ==> observation.cpu.total == cpu.total - before.cpu.total,
        before.cpu.total <= cpu.total && before.cpu.idle <= cpu.idle && cpu.idle - before.cpu.idle
            <= cpu.total - before.cpu.total ==> observation.cpu.busy + (cpu.idle - before.cpu.idle)
            == cpu.total - before.cpu.total,
        before.collected is None ==> observation.elapsed == 0,
{
    if sample.browser_tabs is None {
        assert(views(observation.browser_tabs@).len() == observation.browser_tabs@.len());
    }
    assert forall|blanks: Seq<char>, name: Seq<char>, rest: Seq<char>|
        sample.hostname is Some && blank(blanks) && wordlike(name) && blank(rest)
            && sample.hostname->0@ == #[trigger] (blanks + name + rest) implies
        observation.hostname@ == name by {
        law_trimming_takes_the_blanks(blanks, name, rest);
    }
    assert forall|blanks: Seq<char>, name: Seq<char>, rest: Seq<char>|
        sample.platform_profile is Some && blank(blanks) && wordlike(name) && blank(rest)
            && sample.platform_profile->0@ == #[trigger] (blanks + name + rest) implies
        observation.platform_profile@ == name by {
        law_trimming_takes_the_blanks(blanks, name, rest);
    }
}

/// Processes are ordered by their share of the CPU from the largest down, and
/// those of one share by their memory from the largest down.
impl Ranked for Process {
    open spec fn le(a: ProcessView, b: ProcessView) -> bool {
        a.cpu_percent.rank > b.cpu_percent.rank || (a.cpu_percent.rank == b.cpu_percent.rank
            && a.rss_bytes >= b.rss_bytes)
    }

    fn at_most(&self, other: &Self) -> (r: bool) {
        self.cpu_percent.rank > other.cpu_percent.rank || (self.cpu_percent.rank
            == other.cpu_percent.rank && self.rss_bytes >= other.rss_bytes)
    }

    proof fn total(a: ProcessView, b: ProcessView) {
    }

    proof fn transitive(a: ProcessView, b: ProcessView, c: ProcessView) {
    }
}

/// The processes from the busiest down, and those as busy from the largest down.
pub fn rank_processes(processes: Vec<Process>) -> (r: Vec<Process>)
    ensures
        views(r@) == arranged::<Process>(views(processes@)),
{
    sort(processes)
}

/// Where the processes are ranked, those that are exported first lead in CPU: no
/// process that stands behind them is busier.
pub proof fn law_the_first_exported_lead_in_cpu(
    processes: Seq<ProcessView>,
    limit: nat,
    k: int,
    j: int,
)
    requires
        sorted::<Process>(processes),
        0 <= k < limit,
        k <= j < processes.len(),
    ensures
        k < selection(processes, limit).len(),
        processes[selection(processes, limit)[k]].cpu_percent.rank
            >= processes[j].cpu_percent.rank,
{
    law_selection_covers_every_ranking(processes, limit, k);
    assert(Process::le(processes[k], processes[j]));
}

/// A process that was not there at the last collection has spent nothing since.
pub proof fn law_a_new_process_spent_nothing(before: CollectorView, pid: u32, ticks: u64)
    requires
        !before.ticks.contains_key(pid),
    ensures
        spent(before.ticks, pid, ticks) == 0,
{
}

/// What a process spent between two collections is the difference of its counters,
/// if it was there both times and its counter did not go back.
pub proof fn law_spent_is_the_difference(
    readings: Seq<ProcessReadingView>,
    i: int,
    ticks: u64,
)
    requires
        0 <= i < readings.len(),
        forall|j: int| 0 <= j < readings.len() && j != i ==> (#[trigger] readings[j]).pid
            != readings[i].pid,
        readings[i].ticks <= ticks,
    ensures
        ticks_of(readings).contains_key(readings[i].pid),
        spent(ticks_of(readings), readings[i].pid, ticks) == ticks - readings[i].ticks,
    decreases readings.len(),
{
    if i < readings.len() - 1 {
        let fewer = readings.drop_last();
        assert(fewer[i] == readings[i]);
        assert forall|j: int| 0 <= j < fewer.len() && j != i implies (#[trigger] fewer[j]).pid
            != fewer[i].pid by {
            assert(fewer[j] == readings[j]);
        }
        law_spent_is_the_difference(fewer, i, ticks);
        assert(readings[readings.len() - 1].pid != readings[i].pid);
    }
}

/// A second collection of the same counters finds no work: no process spent time,
/// and no graphics context was busy.
pub proof fn law_unchanged_counters_mean_no_work(
    before: CollectorView,
    sample: Sample,
    cpu: CpuTimes,
    traffic: Map<u32, (u64, u64)>,
    i: int,
    k: int,
)
    requires
        ({
            let readings = processes_of(listed(sample), before.page_size);
            &&& 0 <= i < readings.len()
            &&& forall|a: int, b: int|
                0 <= a < b < readings.len() ==> (#[trigger] readings[a]).pid != (
                #[trigger] readings[b]).pid
        }),
    ensures
        ({
            let readings = processes_of(listed(sample), before.page_size);
            let after = remembered(before, sample, cpu);
            let seen = processes_observed(readings, after, traffic)[i];
            &&& seen.ticks == 0
            &&& 0 <= k < seen.gpu_nanoseconds.len() ==> seen.gpu_nanoseconds[k] == 0
        }),
{
    let readings = processes_of(listed(sample), before.page_size);
    let after = remembered(before, sample, cpu);
    let holdings = holdings_of(readings);
    let charges = charges_of(holdings);
    let pid = readings[i].pid;
    law_spent_is_the_difference(readings, i, readings[i].ticks);
    let times = busy_times(charges, after.charges, pid);
    if 0 <= k < times.len() {
        let f = |charge: HoldingView|
            if charge.pid == pid {
                Some(busy_time(after.charges, charge))
            } else {
                None
            };
        let j = lemma_kept_source(charges, f, k);
        law_an_unchanged_context_was_not_busy(holdings, j);
    }
}

/// Without the traffic table no process has network bytes.
pub proof fn law_no_table_means_no_traffic(
    reading: ProcessReadingView,
    before: CollectorView,
    charges: Seq<HoldingView>,
)
    ensures
        process_observed(reading, before, traffic_of(None), charges).network_receive_bytes == 0,
        process_observed(reading, before, traffic_of(None), charges).network_transmit_bytes == 0,
{
}

/// The first collection reads the health log, and a collector that was never asked
/// finds it due.
pub proof fn law_the_first_collection_reads_the_log(page_size: u64, sample: Sample)
    ensures
        due(fresh(page_size).smart_read, sample.now),
        failure(sample) is None ==> {
            let known = after(fresh(page_size), sample);
            &&& known.nvme_smart == devices_of(optional_text(sample.smart))
            &&& known.smart_read == Some(sample.now)
        },
{
}

/// A health log that was last read at some moment is read again when sixty whole
/// seconds have passed since, and not before: until then it stays, whatever the file
/// holds.
pub proof fn law_the_log_is_refreshed_each_minute(
    before: CollectorView,
    read: Moment,
    sample: Sample,
)
    requires
        before.smart_read == Some(read),
        read.instant() <= sample.now.instant(),
        failure(sample) is None,
    ensures
        ({
            let known = after(before, sample);
            let seconds = (sample.now.instant() - read.instant()) / 1_000_000_000;
            &&& known.nvme_smart == smart_after(before, sample)
            &&& seconds < 60 ==> known.nvme_smart == before.nvme_smart && known.smart_read == Some(
                read,
            )
            &&& seconds >= 60 ==> known.nvme_smart == devices_of(optional_text(sample.smart))
                && known.smart_read == Some(sample.now)
        }),
{
}

/// However many collections follow within the minute, and whether they fail or not,
/// the health log is what was read at its start.
pub proof fn law_the_log_stays_for_a_minute(
    before: CollectorView,
    read: Moment,
    samples: Seq<Sample>,
)
    requires
        before.smart_read == Some(read),
        forall|i: int|
            0 <= i < samples.len() ==> read.instant() <= (#[trigger] samples[i]).now.instant()
                < read.instant() + 60 * NANOSECONDS,
    ensures
        after_all(before, samples).nvme_smart == before.nvme_smart,
        after_all(before, samples).smart_read == Some(read),
    decreases samples.len(),
{
    if samples.len() > 0 {
        let fewer = samples.drop_last();
        assert forall|i: int| 0 <= i < fewer.len() implies read.instant() <= (
        #[trigger] fewer[i]).now.instant() < read.instant() + 60 * NANOSECONDS by {
            assert(fewer[i] == samples[i]);
        }
        law_the_log_stays_for_a_minute(before, read, fewer);
        assert(samples[samples.len() - 1].now.instant() < read.instant() + 60 * NANOSECONDS);
    }
}

/// A collection that failed leaves no trace in the next: its counters are compared
/// with those of the last that did not fail, over the time since that one. Only the
/// health log may be newer, and only where the processes could not be listed.
pub proof fn law_a_failed_collection_leaves_no_trace(
    before: CollectorView,
    failed: Sample,
    next: Sample,
    cpu: CpuTimes,
    count: nat,
    observation: Observation,
)
    requires
        failure(failed) is Some,
    ensures
        ({
            let between = after(before, failed);
            &&& between == (CollectorView {
                nvme_smart: between.nvme_smart,
                smart_read: between.smart_read,
                ..before
            })
            &&& failure(failed) != Some(CollectError::Unreadable(Source::Processes)) ==> between
                == before
            &&& elapsed_of(between, next) == elapsed_of(before, next)
            &&& host_observed(between, next, cpu, count, observation) == host_observed(
                before,
                next,
                cpu,
                count,
                observation,
            )
            &&& tasks_observed(between, next, observation) == tasks_observed(
                before,
                next,
                observation,
            )
        }),
{
    let between = after(before, failed);
    let readings = processes_of(listed(next), before.page_size);
    let traffic = traffic_of(optional_text(next.process_network));
    assert(processes_observed(readings, between, traffic) =~= processes_observed(
        readings,
        before,
        traffic,
    ));
}

/// A collection that did not fail is what the next is compared with: the counters
/// and the moment are its own.
pub proof fn law_a_collection_is_the_next_baseline(before: CollectorView, sample: Sample)
    requires
        failure(sample) is None,
    ensures
        ({
            let known = after(before, sample);
            &&& known.collected == Some(sample.now)
            &&& cpu_times_of(content(sample.stat)) matches Ok((cpu, _)) && known.cpu == cpu
            &&& known.ticks == ticks_of(processes_of(listed(sample), before.page_size))
            &&& known.charges == charges_of(
                holdings_of(processes_of(listed(sample), before.page_size)),
            )
        }),
{
}

/// What is known of a process is what it says, field for field: its id, name and state, its
/// memory and threads, what it read and wrote; beside it what the traffic table says that
/// it received and sent, and its share of the graphics contexts.
pub proof fn law_a_process_is_known_as_read(
    before: CollectorView,
    sample: Sample,
    observation: Observation,
    i: int,
)
    requires
        tasks_observed(before, sample, observation),
        0 <= i < processes_of(listed(sample), before.page_size).len(),
    ensures
        ({
            let readings = processes_of(listed(sample), before.page_size);
            let read = readings[i];
            let seen = views(observation.processes@)[i];
            let traffic = traffic_of(optional_text(sample.process_network));
            let charges = charges_of(holdings_of(readings));
            &&& views(observation.processes@).len() == readings.len()
            &&& observation.processes_total == readings.len()
            &&& seen.pid == read.pid
            &&& seen.name == read.name
            &&& seen.state == read.state
            &&& seen.rss_bytes == read.rss_bytes
            &&& seen.virtual_bytes == read.virtual_bytes
            &&& seen.threads == read.threads
            &&& seen.read_bytes == read.read_bytes
            &&& seen.write_bytes == read.write_bytes
            &&& traffic.contains_key(read.pid) ==> seen.network_receive_bytes
                == traffic[read.pid].0 && seen.network_transmit_bytes == traffic[read.pid].1
            &&& !traffic.contains_key(read.pid) ==> seen.network_receive_bytes == 0
                && seen.network_transmit_bytes == 0
            &&& before.ticks.contains_key(read.pid) && before.ticks[read.pid] <= read.ticks
                ==> seen.ticks == read.ticks - before.ticks[read.pid]
            &&& before.ticks.contains_key(read.pid) && before.ticks[read.pid] > read.ticks
                ==> seen.ticks == 0
            &&& !before.ticks.contains_key(read.pid) ==> seen.ticks == 0
            &&& seen.gpu_nanoseconds == busy_times(charges, before.charges, read.pid)
            &&& charged_vram(charges, read.pid) <= u64::MAX ==> seen.gpu_vram_bytes
                == charged_vram(charges, read.pid)
        }),
{
}

/// The running processes are counted one by one.
pub proof fn law_running_processes_are_counted(
    a: Seq<ProcessReadingView>,
    b: Seq<ProcessReadingView>,
    reading: ProcessReadingView,
)
    ensures
        running(a + b) == running(a) + running(b),
        reading.state == 'R' ==> running(seq![reading]) == 1,
        reading.state != 'R' ==> running(seq![reading]) == 0,
    decreases b.len(),
{
    let none = Seq::<ProcessReadingView>::empty();
    assert(seq![reading].drop_last() =~= none);
    assert(running(none) == 0);
    if b.len() == 0 {
        assert(a + b =~= a);
    } else {
        law_running_processes_are_counted(a, b.drop_last(), reading);
        assert((a + b).drop_last() =~= a + b.drop_last());
        assert((a + b).last() == b.last());
    }
}

/// Processes hold what each of them holds, each context in the hands of its process.
pub proof fn law_processes_hold_what_each_holds(
    a: Seq<ProcessReadingView>,
    b: Seq<ProcessReadingView>,
    reading: ProcessReadingView,
    k: int,
)
    ensures
        holdings_of(a + b) == holdings_of(a) + holdings_of(b),
        holdings_of(seq![reading]).len() == reading.clients.len(),
        0 <= k < reading.clients.len() ==> holdings_of(seq![reading])[k].pid == reading.pid
            && holdings_of(seq![reading])[k].client == reading.clients[k],
    decreases b.len(),
{
    let none = Seq::<ProcessReadingView>::empty();
    assert(seq![reading].drop_last() =~= none);
    assert(holdings_of(none) =~= Seq::<HoldingView>::empty());
    assert(holdings_of(seq![reading]) =~= held_by(reading));
    if b.len() == 0 {
        assert(a + b =~= a);
        assert(holdings_of(a) + holdings_of(b) =~= holdings_of(a));
    } else {
        law_processes_hold_what_each_holds(a, b.drop_last(), reading, k);
        assert((a + b).drop_last() =~= a + b.drop_last());
        assert((a + b).last() == b.last());
        assert(holdings_of(a + b) =~= holdings_of(a) + holdings_of(b));
    }
}

/// The processes of a sample are those of each part of it, and one that cannot be read is
/// passed over.
pub proof fn law_processes_of_both(
    a: Seq<ProcessFilesView>,
    b: Seq<ProcessFilesView>,
    files: ProcessFilesView,
    page_size: u64,
)
    ensures
        processes_of(a + b, page_size) == processes_of(a, page_size) + processes_of(b, page_size),
        process_of(files, page_size) is Some ==> processes_of(seq![files], page_size) == seq![
            process_of(files, page_size)->0,
        ],
        process_of(files, page_size) is None ==> processes_of(seq![files], page_size).len() == 0,
{
    let f = |files: ProcessFilesView| process_of(files, page_size);
    let one = seq![files];
    lemma_kept_both(a, b, f);
    lemma_kept_none(one, f);
    lemma_kept_next(one, f, 0);
    assert(one.take(1) =~= one);
    assert(f(files) == process_of(files, page_size));
}

/// The load averages and the time up are the first words of their files, and what the
/// network and the disks moved is what was received and sent, read and written, as it adds
/// up.
pub proof fn law_loads_and_totals_are_as_read(
    before: CollectorView,
    sample: Sample,
    cpu: CpuTimes,
    cpu_count: nat,
    observation: Observation,
    a: Seq<char>,
    b: Seq<char>,
    c: Seq<char>,
    rest: Seq<char>,
)
    requires
        host_observed(before, sample, cpu, cpu_count, observation),
        sample.loadavg is Some,
        sample.loadavg->0@ == a.push(' ') + (b.push(' ') + (c.push(' ') + rest)),
        wordlike(a) && real_number(a),
        wordlike(b) && real_number(b),
        wordlike(c) && real_number(c),
    ensures
        observation.load@[0]@ == a,
        observation.load@[1]@ == b,
        observation.load@[2]@ == c,
        ({
            let networks = views(observation.networks@);
            let lines = text_lines(content(sample.diskstats));
            &&& physical_received(networks) <= u64::MAX ==> observation.network_receive_bytes
                == physical_received(networks)
            &&& physical_sent(networks) <= u64::MAX ==> observation.network_transmit_bytes
                == physical_sent(networks)
            &&& bytes_read(lines, sample.partitions@) <= u64::MAX ==> observation.disk_read_bytes
                == bytes_read(lines, sample.partitions@)
            &&& bytes_written(lines, sample.partitions@) <= u64::MAX
                ==> observation.disk_write_bytes == bytes_written(lines, sample.partitions@)
        }),
        observation.timestamp == sample.now.stamp(),
        before.collected matches Some(mark) ==> (mark.instant() <= sample.now.instant()
            ==> observation.elapsed == sample.now.instant() - mark.instant()),
{
    law_the_loads_read_back(a, b, c, rest);
}

/// The readings of each quantity stand in its own list, all of them and in order: speeds
/// under the fans, voltages under the voltages, and so on.
pub proof fn law_each_quantity_stands_in_its_list(
    before: CollectorView,
    sample: Sample,
    observation: Observation,
)
    requires
        devices_observed(before, sample, observation),
    ensures
        ({
            let chips = views(sample.chips@);
            &&& views(observation.temperatures@).to_multiset() == readings_of(
                chips,
                Quantity::Temperature,
            ).to_multiset()
            &&& views(observation.power@).to_multiset() == readings_of(
                chips,
                Quantity::Power,
            ).to_multiset()
            &&& views(observation.voltages@).to_multiset() == readings_of(
                chips,
                Quantity::Voltage,
            ).to_multiset()
            &&& views(observation.currents@).to_multiset() == readings_of(
                chips,
                Quantity::Current,
            ).to_multiset()
            &&& views(observation.temperature_limits@).to_multiset() == readings_of(
                chips,
                Quantity::Limit,
            ).to_multiset()
            &&& views(observation.fans@).to_multiset() == fans_of(chips).to_multiset()
            &&& views(observation.temperature_alarms@).to_multiset() == alarms_of(
                chips,
            ).to_multiset()
            &&& views(observation.batteries@).to_multiset() == batteries_of(
                views(sample.supplies@),
            ).to_multiset()
            &&& views(observation.mains_supplies@).to_multiset() == mains_among(
                views(sample.supplies@),
            ).to_multiset()
            &&& views(observation.cpu_frequencies@).to_multiset() == frequencies_of(
                views(sample.policies@),
            ).to_multiset()
            &&& views(observation.gpus@).to_multiset() == loads_of(
                views(sample.cards@),
            ).to_multiset()
        }),
        sorted::<Reading>(views(observation.temperatures@)),
        sorted::<Reading>(views(observation.power@)),
        sorted::<Reading>(views(observation.voltages@)),
        sorted::<Reading>(views(observation.currents@)),
        sorted::<Reading>(views(observation.temperature_limits@)),
        sorted::<Fan>(views(observation.fans@)),
        sorted::<TemperatureAlarm>(views(observation.temperature_alarms@)),
        sorted::<Battery>(views(observation.batteries@)),
        sorted::<MainsSupply>(views(observation.mains_supplies@)),
        sorted::<CpuFrequency>(views(observation.cpu_frequencies@)),
        sorted::<CardLoad>(views(observation.gpus@)),
{
    let chips = views(sample.chips@);
    law_arranged_is_sorted::<Reading>(readings_of(chips, Quantity::Temperature));
    law_arranged_is_sorted::<Reading>(readings_of(chips, Quantity::Power));
    law_arranged_is_sorted::<Reading>(readings_of(chips, Quantity::Voltage));
    law_arranged_is_sorted::<Reading>(readings_of(chips, Quantity::Current));
    law_arranged_is_sorted::<Reading>(readings_of(chips, Quantity::Limit));
    law_arranged_is_sorted::<Fan>(fans_of(chips));
    law_arranged_is_sorted::<TemperatureAlarm>(alarms_of(chips));
    law_arranged_is_sorted::<Battery>(batteries_of(views(sample.supplies@)));
    law_arranged_is_sorted::<MainsSupply>(mains_among(views(sample.supplies@)));
    law_arranged_is_sorted::<CpuFrequency>(frequencies_of(views(sample.policies@)));
    law_arranged_is_sorted::<CardLoad>(loads_of(views(sample.cards@)));
}

/// The processes are ranked by their share of the CPU from the largest down, and those of
/// one share by their resident memory from the largest down; none is lost.
pub proof fn law_processes_are_ranked_by_cpu(processes: Seq<ProcessView>, i: int, j: int)
    requires
        0 <= i <= j < processes.len(),
    ensures
        ({
            let r = arranged::<Process>(processes);
            &&& r.len() == processes.len()
            &&& r.to_multiset() == processes.to_multiset()
            &&& r[i].cpu_percent.rank >= r[j].cpu_percent.rank
            &&& r[i].cpu_percent.rank == r[j].cpu_percent.rank ==> r[i].rss_bytes
                >= r[j].rss_bytes
        }),
{
    let r = arranged::<Process>(processes);
    law_arranged_is_sorted::<Process>(processes);
    r.to_multiset_ensures();
    processes.to_multiset_ensures();
    assert(Process::le(r[i], r[j]));
}

/// A collection fails just if a file that it needs could not be read, or the first line of
/// `stat` is not one; a sample whose files are there is collected. Of several failures the
/// first in the order of the files is told.
pub proof fn law_a_readable_sample_is_collected(sample: Sample)
    ensures
        failure(sample) is None <==> (sample.stat is Some && cpu_times_of(content(sample.stat))
            is Ok && sample.meminfo is Some && sample.loadavg is Some && sample.uptime is Some
            && sample.net_dev is Some && sample.diskstats is Some && sample.processes is Some),
        sample.stat is None ==> failure(sample) == Some(CollectError::Unreadable(Source::Stat)),
        sample.stat is Some ==> {
            &&& cpu_times_of(content(sample.stat)) matches Err(error) ==> failure(sample) == Some(
                CollectError::Cpu(error),
            )
            &&& cpu_times_of(content(sample.stat)) is Ok ==> {
                &&& sample.meminfo is None ==> failure(sample) == Some(
                    CollectError::Unreadable(Source::Meminfo),
                )
                &&& sample.meminfo is Some && sample.loadavg is None ==> failure(sample) == Some(
                    CollectError::Unreadable(Source::Loadavg),
                )
                &&& sample.meminfo is Some && sample.loadavg is Some && sample.uptime is None
                    ==> failure(sample) == Some(CollectError::Unreadable(Source::Uptime))
                &&& sample.meminfo is Some && sample.loadavg is Some && sample.uptime is Some
                    && sample.net_dev is None ==> failure(sample) == Some(
                    CollectError::Unreadable(Source::NetDev),
                )
                &&& sample.meminfo is Some && sample.loadavg is Some && sample.uptime is Some
                    && sample.net_dev is Some && sample.diskstats is None ==> failure(sample)
                    == Some(CollectError::Unreadable(Source::Diskstats))
                &&& sample.meminfo is Some && sample.loadavg is Some && sample.uptime is Some
                    && sample.net_dev is Some && sample.diskstats is Some && sample.processes
                    is None ==> failure(sample) == Some(
                    CollectError::Unreadable(Source::Processes),
                )
            }
        },
{
}

/// A new collector remembers nothing: no times, no processes, no contexts, no moment and no
/// health log.
pub proof fn law_a_new_collector_remembers_nothing(page_size: u64, pid: u32)
    ensures
        ({
            let known = fresh(page_size);
            &&& known.page_size == page_size
            &&& known.cpu.total == 0 && known.cpu.idle == 0
            &&& !known.ticks.contains_key(pid)
            &&& known.charges.len() == 0
            &&& known.nvme_smart.len() == 0
            &&& known.collected is None
            &&& known.smart_read is None
        }),
{
}

} // verus!
