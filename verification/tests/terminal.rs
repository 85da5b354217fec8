//! The terminal view and the command line.

use std::time::Duration;

use bbtop::cli::{is_overlong, parse_args, usage, Argument, Environment, Interval, Span};
use bbtop::snapshot::{Figure, Gpu, Process, Snapshot};
use bbtop::ui::{
    bar, bytes, display_order, draw, duration, gpu_summary, network_bytes, press, process_row,
    terminal_size, used_memory, Gauges, SortBy,
};

fn figure(x: f64) -> Figure {
    let bits = x.to_bits() as i64;
    Figure {
        rank: bits ^ (((bits >> 63) as u64) >> 1) as i64,
        shortest: format!("{x}"),
        units: format!("{x:.0}"),
        tenths: format!("{x:.1}"),
        hundredths: format!("{x:.2}"),
        thousandths: format!("{x:.3}"),
        millionths: format!("{x:.6}"),
    }
}

#[test]
fn formats_byte_units() {
    assert_eq!(bytes(1024), "1.0KiB");
    assert_eq!(bytes(1_073_741_824), "1.0GiB");
}

#[test]
fn formats_duration() {
    assert_eq!(duration(90_060), "1d 01h 01m");
}

fn expected_bytes(value: u64) -> String {
    let units = ["B", "KiB", "MiB", "GiB", "TiB"];
    let mut amount = value as f64;
    let mut unit = 0;
    while amount >= 1024.0 && unit < units.len() - 1 {
        amount /= 1024.0;
        unit += 1;
    }
    format!("{amount:.1}{}", units[unit])
}

#[test]
fn amounts_are_rounded_as_real_numbers_are() {
    let mut state: u64 = 0x9e37_79b9_7f4a_7c15;
    for shift in 0..64 {
        for _ in 0..200 {
            state ^= state << 13;
            state ^= state >> 7;
            state ^= state << 17;
            let value = state >> shift;
            assert_eq!(bytes(value), expected_bytes(value), "{value}");
        }
    }
    for base in 0..64 {
        for offset in -3i64..=3 {
            let value = (1u64 << base).wrapping_add(offset as u64);
            assert_eq!(bytes(value), expected_bytes(value), "{value}");
        }
    }
    for value in 0..200_000 {
        assert_eq!(bytes(value), expected_bytes(value), "{value}");
    }
    for quarter in 0..5_000 {
        let value = quarter * (1 << 20) / 20;
        assert_eq!(bytes(value), expected_bytes(value), "{value}");
    }
    assert_eq!(bytes(u64::MAX), "16777216.0TiB");
    assert_eq!(bytes(0), "0.0B");
}

#[test]
fn durations_are_whole_minutes() {
    assert_eq!(duration(0), "0d 00h 00m");
    assert_eq!(duration(86_399), "0d 23h 59m");
    assert_eq!(duration(u64::MAX), "213503982334601d 07h 00m");
}

#[test]
fn keys_sort_and_quit() {
    assert_eq!(press(SortBy::Cpu, b'q'), None);
    assert_eq!(press(SortBy::Cpu, 3), None);
    for (key, sort) in [
        (b'c', SortBy::Cpu),
        (b'm', SortBy::Memory),
        (b'r', SortBy::Read),
        (b'w', SortBy::Write),
        (b'n', SortBy::Network),
        (b'g', SortBy::Gpu),
        (b'p', SortBy::Pid),
    ] {
        assert_eq!(press(SortBy::Write, key), Some(sort));
    }
    assert_eq!(press(SortBy::Gpu, b'x'), Some(SortBy::Gpu));
}

fn processes() -> Vec<Process> {
    vec![
        Process {
            pid: 30,
            cpu_percent: figure(1.0),
            rss_bytes: 3,
            read_bytes: 1,
            write_bytes: 9,
            network_receive_bytes: 4,
            gpu_percent: figure(0.0),
            ..Process::default()
        },
        Process {
            pid: 10,
            cpu_percent: figure(-2.0),
            rss_bytes: 2,
            read_bytes: 2,
            write_bytes: 8,
            network_transmit_bytes: 5,
            gpu_percent: figure(3.0),
            ..Process::default()
        },
        Process {
            pid: 20,
            cpu_percent: figure(50.0),
            rss_bytes: 1,
            read_bytes: 3,
            write_bytes: 7,
            gpu_percent: figure(1.0),
            ..Process::default()
        },
    ]
}

#[test]
fn processes_are_shown_by_the_chosen_key() {
    let processes = processes();
    assert_eq!(display_order(&processes, SortBy::Cpu), vec![2, 0, 1]);
    assert_eq!(display_order(&processes, SortBy::Memory), vec![0, 1, 2]);
    assert_eq!(display_order(&processes, SortBy::Read), vec![2, 1, 0]);
    assert_eq!(display_order(&processes, SortBy::Write), vec![0, 1, 2]);
    assert_eq!(display_order(&processes, SortBy::Network), vec![1, 0, 2]);
    assert_eq!(display_order(&processes, SortBy::Gpu), vec![1, 2, 0]);
    assert_eq!(display_order(&processes, SortBy::Pid), vec![1, 2, 0]);
    assert_eq!(network_bytes(&processes[1]), 5);
}

#[test]
fn a_row_leaves_room_for_the_name() {
    let process = Process {
        pid: 7,
        name: "a-rather-long-name".into(),
        state: 'S',
        cpu_percent: figure(12.34),
        rss_bytes: 2048,
        gpu_percent: figure(1234567.0),
        ..Process::default()
    };
    assert_eq!(
        process_row(&process, 80),
        format!(
            " {:>7} {} {:>7.1} {:>8} {:>8} {:>8} {:>8} {:>8} {:>7.1} {:>8}  {}\n",
            7, 'S', 12.34, "2.0KiB", "0.0B", "0.0B", "0.0B", "0.0B", 1234567.0, "0.0B", "a-rather"
        )
    );
    assert!(process_row(&process, 94).ends_with("  a-rather-l\n"));
    assert!(process_row(&process, 200).ends_with("  a-rather-long-name\n"));
}

#[test]
fn cards_stand_beside_each_other() {
    let card = |busy: f64| Gpu {
        card: "card0".into(),
        driver: "amdgpu".into(),
        busy_percent: figure(busy),
        vram_used_bytes: 1024,
        vram_total_bytes: 2048,
    };
    assert_eq!(gpu_summary(&Vec::new()), "GPU none detected");
    assert_eq!(gpu_summary(&vec![card(5.0)]), "GPU amdgpu   5%  VRAM 1.0KiB / 2.0KiB");
    assert_eq!(
        gpu_summary(&vec![card(5.0), card(100.0)]),
        "GPU amdgpu   5%  VRAM 1.0KiB / 2.0KiB    GPU amdgpu 100%  VRAM 1.0KiB / 2.0KiB"
    );
}

#[test]
fn the_terminal_has_a_usual_size() {
    assert_eq!(terminal_size(None), (120, 30));
    assert_eq!(terminal_size(Some(&"24 80\n".to_owned())), (80, 24));
    assert_eq!(terminal_size(Some(&"24\n".to_owned())), (120, 30));
    assert_eq!(terminal_size(Some(&"24 wide\n".to_owned())), (120, 30));
}

#[test]
fn a_bar_is_filled_from_the_left() {
    assert_eq!(bar(2, 5), "\x1b[32m██\x1b[2m░░░\x1b[0m");
    assert_eq!(bar(0, 0), "\x1b[32m\x1b[2m\x1b[0m");
}

#[test]
fn a_frame_fills_the_terminal() {
    let snapshot = Snapshot {
        hostname: "box".into(),
        cpu_percent: figure(50.0),
        memory_total: 4096,
        memory_available: 1024,
        swap_total: 10,
        swap_free: 20,
        load: [figure(0.5), figure(1.0), figure(1.255)],
        processes_total: 3,
        processes_running: 1,
        processes: processes(),
        ..Snapshot::default()
    };
    let gauges = Gauges {
        cpu_filled: 12,
        memory_percent: figure(75.0),
        memory_filled: 18,
        uptime_seconds: 90_060,
    };
    let frame = draw(&snapshot, "127.0.0.1:9099", SortBy::Pid, 100, 30, &gauges);
    assert_eq!(frame.matches('\n').count(), 29);
    assert_eq!(used_memory(&snapshot), 3072);
    assert!(frame.starts_with(
        "\x1b[H\x1b[2J\x1b[1;36m bbtop\x1b[0m  Linux observability console  \x1b[2mbox  :127.0.0.1:9099\x1b[0m\n"
    ));
    assert!(frame.contains(&format!(
        " CPU  50.0% {}  load 0.50 1.00 {:.2}  uptime 1d 01h 01m\n",
        bar(12, 24),
        1.255
    )));
    assert!(frame.contains(&format!(
        " MEM  75.0% {}  3.0KiB / 4.0KiB  SWAP 0.0B\n",
        bar(18, 24)
    )));
    assert!(frame.contains(
        " NET rx 0.0B  tx 0.0B    DISK read 0.0B  write 0.0B    TASKS 3 (1 running)\n GPU none detected\n\n"
    ));
    let first = process_row(&snapshot.processes[1], 100);
    let second = process_row(&snapshot.processes[2], 100);
    assert!(frame.contains(&format!("NAME\x1b[0m\n{first}{second}")));
    assert!(frame.ends_with("p pid \x1b[0m"));
    let low = draw(&snapshot, "x", SortBy::Pid, 100, 11, &gauges);
    assert!(low.contains(&first) && !low.contains(&second));
    let flat = draw(&snapshot, "x", SortBy::Pid, 100, 0, &gauges);
    assert!(!flat.contains(&first));
    assert_eq!(flat.matches('\n').count(), 7);
}

fn args(texts: &[&str]) -> Vec<Argument> {
    texts
        .iter()
        .map(|text| Argument {
            text: text.to_string(),
            interval: match text.parse::<f64>() {
                Ok(seconds) if !seconds.is_finite() || seconds < 0.2 => Interval::Short,
                Ok(seconds) => match Duration::try_from_secs_f64(seconds) {
                    Ok(span) => Interval::Fair(Span {
                        seconds: span.as_secs(),
                        nanoseconds: span.subsec_nanos(),
                    }),
                    Err(_) => Interval::Long,
                },
                Err(_) => Interval::Short,
            },
        })
        .collect()
}

fn bare() -> Environment {
    Environment { proc_root: None, filesystem_root: None, runtime_root: None }
}

#[test]
fn a_headless_host_runs_with_the_defaults() {
    let environment = Environment { runtime_root: Some(b"/host/run".to_vec()), ..bare() };
    let line = args(&["--no-tui", "--listen", "0.0.0.0:9099"]);
    let config = parse_args(&line, &environment).unwrap().unwrap();
    assert!(!config.tui);
    assert_eq!(config.listen, "0.0.0.0:9099");
    assert_eq!(
        Duration::new(config.interval.seconds, config.interval.nanoseconds),
        Duration::from_secs(2)
    );
    assert_eq!(config.process_limit, 50);
    assert_eq!(config.proc_root, b"/proc");
    assert_eq!(config.filesystem_root, b"/");
    assert_eq!(config.runtime_root, b"/host/run");
}

#[test]
fn reads_the_command_line() {
    let config = parse_args(&args(&[]), &bare()).unwrap().unwrap();
    assert_eq!(config.listen, "127.0.0.1:9099");
    assert_eq!(config.interval, Span { seconds: 2, nanoseconds: 0 });
    assert_eq!((config.process_limit, config.tui), (50, true));
    assert_eq!(config.runtime_root, b"/run/bbtop");
    let environment = Environment {
        proc_root: Some(b"/host/proc".to_vec()),
        filesystem_root: Some(b"/host\xff".to_vec()),
        runtime_root: None,
    };
    let line = args(&[
        "--no-tui", "--listen", "0.0.0.0:1", "--interval", "0.25", "--top", "7", "--top", "9",
    ]);
    let config = parse_args(&line, &environment).unwrap().unwrap();
    assert_eq!(config.listen, "0.0.0.0:1");
    assert_eq!(config.interval, Span { seconds: 0, nanoseconds: 250_000_000 });
    assert_eq!((config.process_limit, config.tui), (9, false));
    assert_eq!(config.proc_root, b"/host/proc");
    assert_eq!(config.filesystem_root, b"/host\xff");
    assert!(parse_args(&args(&["--top", "3", "-h", "--bogus"]), &bare()).unwrap().is_none());
    assert!(parse_args(&args(&["--help"]), &bare()).unwrap().is_none());
}

#[test]
fn says_what_is_wrong_with_the_command_line() {
    for (line, message) in [
        (vec!["--listen"], "--listen needs a value"),
        (vec!["--interval"], "--interval needs a value"),
        (vec!["--interval", "soon"], "--interval must be a number"),
        (vec!["--interval", "0.1"], "--interval must be at least 0.2 seconds"),
        (vec!["--interval", "inf"], "--interval must be at least 0.2 seconds"),
        (vec!["--top"], "--top needs a value"),
        (vec!["--top", "0"], "--top must be a positive integer"),
        (vec!["--top", "-1"], "--top must be a positive integer"),
        (vec!["--bogus"], "unknown argument: --bogus"),
    ] {
        let error = match parse_args(&args(&line), &bare()) {
            Ok(_) => panic!("{line:?} was read"),
            Err(error) => error,
        };
        assert_eq!(error.message(), message);
    }
    for (nanoseconds, enough) in [(199_999_999, false), (200_000_000, true)] {
        let mut line = args(&["--interval", "0.2"]);
        line[1].interval = Interval::Fair(Span { seconds: 0, nanoseconds });
        assert_eq!(parse_args(&line, &bare()).is_ok(), enough);
    }
    assert!(is_overlong(&args(&["--interval", "1e30"]), &bare()));
    assert!(!is_overlong(&args(&["--listen", "1e30"]), &bare()));
    assert!(!is_overlong(&args(&["--help", "--interval", "1e30"]), &bare()));
}

#[test]
fn the_usage_names_every_option() {
    assert!(usage().starts_with("bbtop [--no-tui] [--listen ADDRESS] [--interval SECONDS] [--top COUNT]\n\nOptions:\n--no-tui "));
    for option in ["--no-tui", "--listen ADDRESS", "--interval SEC", "--top COUNT", "-h, --help"] {
        assert!(usage().contains(&format!("\n{option}")));
    }
    assert!(usage().ends_with("show this help"));
}
