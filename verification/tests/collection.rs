//! Collections one after the other.

use bbtop::clock::{time_since, Moment};
use bbtop::collector::{rank_processes, CollectError, Collector, Sample, Source};
use bbtop::cpu::CpuError;
use bbtop::process::ProcessFiles;
use bbtop::selection::select_processes;
use bbtop::snapshot::{Figure, Process};

fn at(seconds: i64, nanoseconds: u32) -> Moment {
    Moment { seconds, nanoseconds }
}

fn sample(stat: &str, processes: Vec<ProcessFiles>) -> Sample {
    Sample {
        now: at(0, 0),
        stat: Some(stat.to_owned()),
        meminfo: Some("MemTotal: 100 kB\nMemAvailable: 40 kB\nSwapTotal: 8 kB\nSwapFree: 8 kB\n".into()),
        loadavg: Some("0.1 0.2 0.3 1/2 3\n".into()),
        uptime: Some("90060.5 1\n".into()),
        net_dev: Some("eth0: 10 0 0 0 0 0 0 0 20\nlo: 1 0 0 0 0 0 0 0 1\n".into()),
        backed: vec!["eth0".into()],
        diskstats: Some("8 0 sda 1 0 2 0 1 0 3 0 0 0 0\n".into()),
        partitions: Vec::new(),
        chips: Vec::new(),
        supplies: Vec::new(),
        policies: Vec::new(),
        cards: Vec::new(),
        platform_profile: Some("balanced\n".into()),
        hostname: Some("box\n".into()),
        browser_tabs: None,
        smart: None,
        mountinfo: String::new(),
        spaces: Vec::new(),
        process_network: None,
        processes: Some(processes),
    }
}

fn process(pid: u32, state: char, ticks: u64, busy: u64) -> ProcessFiles {
    ProcessFiles {
        pid,
        stat: Some(format!("{pid} (p{pid}) {state} 1 2 3 4 5 6 7 8 9 10 {ticks} 0 14 15 16 17 1 19 20 100 2 22")),
        io: None,
        fdinfos: vec![format!("drm-client-id: {pid}\ndrm-engine-gfx: {busy}\ndrm-memory-vram: 1\n")],
    }
}

#[test]
fn counters_are_compared_with_the_last_collection() {
    let mut collector = Collector::new(None);
    let first = collector
        .collect(&sample("cpu 10 0 0 90\ncpu0 1\n", vec![process(7, 'R', 100, 1_000)]))
        .ok()
        .unwrap();
    assert_eq!((first.cpu.busy, first.cpu.total, first.cpu_count), (10, 100, 1));
    assert_eq!((first.processes_total, first.processes_running), (1, 1));
    assert_eq!(first.processes[0].ticks, 0);
    assert_eq!(first.processes[0].gpu_nanoseconds, vec![0]);
    assert_eq!(first.processes[0].gpu_vram_bytes, 1024);
    assert_eq!(first.processes[0].rss_bytes, 8192);
    assert_eq!((first.memory_total, first.memory_available), (102_400, 40_960));
    assert_eq!((first.network_receive_bytes, first.network_transmit_bytes), (10, 20));
    assert_eq!((first.disk_read_bytes, first.disk_write_bytes), (1024, 1536));
    assert_eq!((first.hostname.as_str(), first.platform_profile.as_str()), ("box", "balanced"));
    assert_eq!(first.uptime.as_deref(), Some("90060.5"));
    assert_eq!(first.load[2], "0.3");

    let mut second = sample(
        "cpu 40 0 0 110\n",
        vec![process(7, 'S', 130, 4_000), process(8, 'S', 50, 9)],
    );
    second.process_network = Some("8 5 6\n".into());
    second.hostname = None;
    let second = collector.collect(&second).ok().unwrap();
    assert_eq!((second.cpu.busy, second.cpu.total), (30, 50));
    assert_eq!(second.processes_running, 0);
    assert_eq!(second.processes[0].ticks, 30);
    assert_eq!(second.processes[0].gpu_nanoseconds, vec![3_000]);
    assert_eq!(second.processes[0].network_receive_bytes, 0);
    assert_eq!(second.processes[1].ticks, 0);
    assert_eq!(second.processes[1].gpu_nanoseconds, vec![0]);
    assert_eq!(second.processes[1].network_receive_bytes, 5);
    assert_eq!(second.processes[1].network_transmit_bytes, 6);
    assert_eq!(second.hostname, "unknown");
}

#[test]
fn a_failed_collection_is_not_remembered() {
    let mut collector = Collector::new(None);
    let _ = collector.collect(&sample("cpu 10 0 0 90\n", vec![process(7, 'R', 100, 0)]));
    let error = collector.collect(&sample("cpu 1\n", vec![process(7, 'R', 500, 0)])).err().unwrap();
    assert_eq!(error, CollectError::Cpu(CpuError::Invalid));
    assert_eq!(
        collector.collect(&sample("", Vec::new())).err(),
        Some(CollectError::Cpu(CpuError::Missing))
    );
    let next = collector
        .collect(&sample("cpu 20 0 0 90\n", vec![process(7, 'R', 101, 0)]))
        .ok()
        .unwrap();
    assert_eq!((next.cpu.busy, next.cpu.total, next.processes[0].ticks), (10, 10, 1));
}

#[test]
fn an_unchanged_host_did_no_work() {
    let mut collector = Collector::new(Some(&"KernelPageSize: 16 kB\n".to_owned()));
    for _ in 0..2 {
        let seen = collector
            .collect(&sample("cpu 10 0 0 90\n", vec![process(7, 'R', 100, 5), process(9, 'S', 1, 6)]))
            .ok()
            .unwrap();
        assert!(seen.processes.iter().all(|p| p.ticks == 0 && p.gpu_nanoseconds == [0]));
        assert_eq!(seen.processes[0].rss_bytes, 32_768);
    }
}

#[test]
fn what_cannot_be_read_fails_in_order_and_leaves_the_baseline() {
    let sources = [
        Source::Stat,
        Source::Meminfo,
        Source::Loadavg,
        Source::Uptime,
        Source::NetDev,
        Source::Diskstats,
        Source::Processes,
    ];
    for (i, source) in sources.into_iter().enumerate() {
        let mut collector = Collector::new(None);
        let mut first = sample("cpu 10 0 0 90\n", vec![process(7, 'R', 100, 1_000)]);
        first.now = at(100, 500_000_000);
        assert_eq!(collector.collect(&first).ok().unwrap().elapsed, 0);

        let mut broken = sample("cpu 15 0 0 95\n", vec![process(7, 'R', 900, 9_000)]);
        broken.now = at(103, 0);
        if i == 0 {
            broken.stat = None;
        }
        if i <= 1 {
            broken.meminfo = None;
        }
        if i <= 2 {
            broken.loadavg = None;
        }
        if i <= 3 {
            broken.uptime = None;
        }
        if i <= 4 {
            broken.net_dev = None;
        }
        if i <= 5 {
            broken.diskstats = None;
        }
        broken.processes = None;
        assert_eq!(collector.collect(&broken).err(), Some(CollectError::Unreadable(source)));
        if i > 0 {
            broken.stat = Some("cpu 1\n".into());
            assert_eq!(collector.collect(&broken).err(), Some(CollectError::Cpu(CpuError::Invalid)));
        }

        let mut next = sample("cpu 20 0 0 100\n", vec![process(7, 'R', 110, 1_500)]);
        next.now = at(105, 0);
        let next = collector.collect(&next).ok().unwrap();
        assert_eq!((next.elapsed, next.timestamp), (4_500_000_000, 105));
        assert_eq!((next.cpu.busy, next.cpu.total), (10, 20));
        assert_eq!(next.processes[0].ticks, 10);
        assert_eq!(next.processes[0].gpu_nanoseconds, vec![500]);
    }
}

#[test]
fn a_clock_that_went_back_measures_nothing() {
    assert_eq!(time_since(None, at(5, 0)), None);
    assert_eq!(time_since(Some(at(5, 1)), at(5, 0)), None);
    assert_eq!(time_since(Some(at(5, 0)), at(5, 0)), Some(0));
    assert_eq!(time_since(Some(at(-2, 999_999_999)), at(1, 2)), Some(2_000_000_003));
    assert_eq!(at(-1, 999_999_999).timestamp(), 0);
    assert_eq!(at(7, 999_999_999).timestamp(), 7);
    let mut collector = Collector::new(None);
    let mut item = sample("cpu 1 2 3 4\n", Vec::new());
    item.now = at(50, 0);
    assert!(collector.collect(&item).is_ok());
    item.now = at(49, 0);
    assert!(collector.wants_smart(item.now));
    assert_eq!(collector.collect(&item).ok().unwrap().elapsed, 0);
    item.now = at(49, 7);
    assert_eq!(collector.collect(&item).ok().unwrap().elapsed, 7);
}

#[test]
fn the_health_log_is_kept_until_it_is_due() {
    let log = |used: u64| {
        Some(format!(
            "\"nvme_smart_health_information_log\": \"percentage_used\": {used}, \"available_spare\": 1"
        ))
    };
    let mut collector = Collector::new(None);
    let mut item = sample("cpu 1 2 3 4\n", Vec::new());
    item.now = at(1_000, 600_000_000);
    assert!(collector.wants_smart(item.now));
    item.smart = log(3);
    assert_eq!(collector.collect(&item).ok().unwrap().nvme_smart[0].percentage_used, 3);
    item.smart = log(4);
    item.now = at(1_030, 0);
    assert_eq!(collector.collect(&item).ok().unwrap().nvme_smart[0].percentage_used, 3);
    item.now = at(1_060, 599_999_999);
    assert!(!collector.wants_smart(item.now));
    assert_eq!(collector.collect(&item).ok().unwrap().nvme_smart[0].percentage_used, 3);
    item.now = at(1_060, 600_000_000);
    assert!(collector.wants_smart(item.now));
    assert_eq!(collector.collect(&item).ok().unwrap().nvme_smart[0].percentage_used, 4);

    // A collection that cannot list the processes has read the log before.
    item.smart = log(9);
    item.now = at(1_120, 600_000_000);
    item.processes = None;
    assert!(collector.collect(&item).is_err());
    assert!(!collector.wants_smart(item.now));
    item.smart = None;
    item.processes = Some(Vec::new());
    assert_eq!(collector.collect(&item).ok().unwrap().nvme_smart[0].percentage_used, 9);

    // One that fails earlier has not.
    item.now = at(1_200, 0);
    item.meminfo = None;
    assert!(collector.collect(&item).is_err());
    assert!(collector.wants_smart(item.now));
    item.meminfo = Some(String::new());
    assert!(collector.collect(&item).ok().unwrap().nvme_smart.is_empty());
}

#[test]
fn processes_stand_by_cpu_and_then_by_memory() {
    let item = |pid: u32, rank: i64, rss_bytes: u64| Process {
        pid,
        cpu_percent: Figure { rank, ..Figure::zero() },
        rss_bytes,
        ..Process::default()
    };
    let order: Vec<u32> = rank_processes(vec![item(1, 0, 5), item(2, 7, 1), item(3, 0, 9), item(4, -1, 99)])
        .into_iter()
        .map(|process| process.pid)
        .collect();
    assert_eq!(order, vec![2, 3, 1, 4]);
    let ranked = rank_processes(vec![item(1, 0, 5), item(2, 7, 1), item(3, 0, 9), item(4, -1, 99)]);
    assert_eq!(select_processes(&ranked, 2), vec![0, 1, 3]);
}
