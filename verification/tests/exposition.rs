//! The Prometheus exposition and the HTTP exporter.

use bbtop::metrics::{escape_label, is_discharging, metric, render_prometheus};
use bbtop::selection::{process_network_bytes, select_processes};
use bbtop::server::respond;
use bbtop::snapshot::{
    BatteryPower, CpuFrequency, ElectricalReading, Fan, Figure, Filesystem, Gpu, MainsSupply,
    NetworkInterface, NvmeSmart, Power, Process, Snapshot, Temperature, TemperatureAlarm,
    TemperatureLimit,
};

fn figure(x: f64) -> Figure {
    let bits = x.to_bits() as i64;
    Figure {
        rank: bits ^ (((bits >> 63) as u64) >> 1) as i64,
        shortest: format!("{x}"),
        units: format!("{x:.0}"),
        tenths: format!("{x:.1}"),
        hundredths: format!("{x:.2}"),
        thousandths: format!("{x:.3}"),
        millionths: format!("{x:.6}"),
    }
}

fn process(pid: u32, rss_bytes: u64) -> Process {
    Process {
        pid,
        name: format!("p{pid}"),
        state: 'S',
        rss_bytes,
        ..Process::default()
    }
}

#[test]
fn escapes_prometheus_labels() {
    assert_eq!(escape_label("a\\\"b\nc"), "a\\\\\\\"b\\nc");
}

#[test]
fn labels_read_back_and_stay_in_their_quotes() {
    for text in ["", "plain", "a\\\"b\nc", "\\", "\\n", "\"\"", "\n\n", "ü\\\n"] {
        let escaped = escape_label(text);
        let replaced = text.replace('\\', "\\\\").replace('\n', "\\n").replace('"', "\\\"");
        assert_eq!(escaped, replaced);
        assert!(!escaped.contains('\n'));
        let mut read = String::new();
        let mut rest = escaped.chars();
        while let Some(c) = rest.next() {
            if c == '\\' {
                match rest.next() {
                    Some('n') => read.push('\n'),
                    Some(other) => read.push(other),
                    None => panic!("a lone backslash in {escaped:?}"),
                }
            } else {
                assert_ne!(c, '"');
                read.push(c);
            }
        }
        assert_eq!(read, text);
    }
}

#[test]
fn renders_core_metrics() {
    let snapshot = Snapshot {
        cpu_percent: figure(12.5),
        hostname: "box".into(),
        ..Snapshot::default()
    };
    let rendered = render_prometheus(&snapshot, 10);
    assert!(rendered.contains("bbtop_cpu_usage_percent 12.5"));
    assert!(rendered.contains("bbtop_info{hostname=\"box\"} 1"));
}

#[test]
fn renders_filesystem_capacity() {
    let snapshot = Snapshot {
        filesystems: vec![Filesystem {
            device: "/dev/test".into(),
            mountpoint: "/data".into(),
            filesystem_type: "ext4".into(),
            size_bytes: 1_000,
            available_bytes: 250,
        }],
        ..Snapshot::default()
    };
    let rendered = render_prometheus(&snapshot, 10);
    assert!(rendered.contains(
        "bbtop_filesystem_used_bytes{device=\"/dev/test\",mountpoint=\"/data\",fstype=\"ext4\"} 750"
    ));
}

#[test]
fn renders_hwmon_temperatures() {
    let snapshot = Snapshot {
        temperatures: vec![Temperature {
            chip: "amdgpu".into(),
            sensor: "edge".into(),
            celsius: figure(64.125),
        }],
        ..Snapshot::default()
    };
    let rendered = render_prometheus(&snapshot, 10);
    assert!(
        rendered.contains("bbtop_temperature_celsius{chip=\"amdgpu\",sensor=\"edge\"} 64.125")
    );
}

#[test]
fn renders_hwmon_power() {
    let snapshot = Snapshot {
        power: vec![Power {
            chip: "amdgpu".into(),
            sensor: "PPT".into(),
            reading: "average".into(),
            watts: figure(16.053),
        }],
        ..Snapshot::default()
    };
    let rendered = render_prometheus(&snapshot, 10);
    assert!(rendered.contains(
        "bbtop_power_watts{chip=\"amdgpu\",sensor=\"PPT\",reading=\"average\"} 16.053000"
    ));
}

#[test]
fn renders_battery_power_and_discharge_estimate() {
    let snapshot = Snapshot {
        battery_power: vec![BatteryPower {
            battery: "BATT".into(),
            status: "Discharging".into(),
            watts: figure(22.5),
            charge_percent: Some(figure(75.0)),
        }],
        ..Snapshot::default()
    };
    let rendered = render_prometheus(&snapshot, 10);
    assert!(rendered.contains(
        "bbtop_battery_power_watts{battery=\"BATT\",status=\"Discharging\"} 22.500000"
    ));
    assert!(
        rendered.contains("bbtop_laptop_power_estimate_watts{source=\"battery\"} 22.500000")
    );
    assert!(rendered.contains(
        "bbtop_battery_charge_percent{battery=\"BATT\",status=\"Discharging\"} 75.000"
    ));
}

#[test]
fn exports_top_cpu_and_top_memory_processes() {
    let snapshot = Snapshot {
        processes: vec![
            Process {
                pid: 1,
                name: "cpu".into(),
                cpu_percent: figure(99.0),
                rss_bytes: 1,
                ..Process::default()
            },
            Process {
                pid: 2,
                name: "memory".into(),
                rss_bytes: 1_000_000,
                ..Process::default()
            },
        ],
        ..Snapshot::default()
    };
    let rendered = render_prometheus(&snapshot, 1);
    assert!(rendered.contains("pid=\"1\",name=\"cpu\""));
    assert!(rendered.contains("pid=\"2\",name=\"memory\""));
}

#[test]
fn renders_one_series_per_network_interface() {
    let snapshot = Snapshot {
        networks: vec![
            NetworkInterface {
                name: "wlp2s0".into(),
                kind: "physical".into(),
                receive_bytes: 10,
                transmit_bytes: 20,
            },
            NetworkInterface {
                name: "docker0".into(),
                kind: "virtual".into(),
                receive_bytes: 30,
                transmit_bytes: 40,
            },
        ],
        ..Snapshot::default()
    };
    let rendered = render_prometheus(&snapshot, 1);
    assert!(rendered.contains(
        "bbtop_network_receive_bytes_total{interface=\"wlp2s0\",kind=\"physical\"} 10"
    ));
    assert!(rendered.contains(
        "bbtop_network_transmit_bytes_total{interface=\"docker0\",kind=\"virtual\"} 40"
    ));
}

#[test]
fn exports_network_talkers_that_are_idle_otherwise() {
    let snapshot = Snapshot {
        processes: vec![
            Process {
                pid: 1,
                name: "cpu".into(),
                cpu_percent: figure(99.0),
                rss_bytes: 1_000_000,
                ..Process::default()
            },
            Process {
                pid: 2,
                name: "downloader".into(),
                network_receive_bytes: 4_000,
                network_transmit_bytes: 100,
                ..Process::default()
            },
            Process {
                pid: 3,
                name: "silent".into(),
                ..Process::default()
            },
        ],
        ..Snapshot::default()
    };
    let rendered = render_prometheus(&snapshot, 1);
    assert!(rendered.contains(
        "bbtop_process_network_receive_bytes_total{pid=\"2\",name=\"downloader\"} 4000"
    ));
    assert!(!rendered.contains("name=\"silent\""));
}

#[test]
fn exports_gpu_users_that_are_idle_otherwise() {
    let mut renderer = process(2, 0);
    renderer.gpu_percent = figure(37.5);
    renderer.gpu_vram_bytes = 4096;
    let mut backwards = process(3, 0);
    backwards.gpu_percent = figure(-1.0);
    let snapshot = Snapshot {
        processes: vec![process(1, 10), renderer, backwards],
        ..Snapshot::default()
    };
    let rendered = render_prometheus(&snapshot, 1);
    assert!(rendered.contains("bbtop_process_gpu_usage_percent{pid=\"2\",name=\"p2\"} 37.500"));
    assert!(rendered.contains("bbtop_process_gpu_vram_bytes{pid=\"2\",name=\"p2\"} 4096"));
    assert!(!rendered.contains("name=\"p3\""));
}

#[test]
fn only_the_first_of_each_ranking_are_selected() {
    let talker = |pid: u32, bytes: u64| Process {
        network_receive_bytes: bytes,
        ..process(pid, 0)
    };
    let user = |pid: u32, share: f64| Process {
        gpu_percent: figure(share),
        ..process(pid, 0)
    };
    let processes = vec![
        process(1, 9),
        talker(2, 5),
        talker(3, 6),
        user(4, 2.0),
        user(5, 1.0),
        process(6, 1),
    ];
    assert_eq!(select_processes(&processes, 1), vec![0, 2, 3]);
    assert_eq!(select_processes(&processes, 2), vec![0, 1, 5, 2, 3, 4]);
}

#[test]
fn selection_keeps_order_and_names_a_process_once() {
    let mut talker = process(4, 1);
    talker.network_receive_bytes = 5;
    let mut renderer = process(5, 2);
    renderer.gpu_percent = figure(1.0);
    let processes = vec![process(1, 3), process(2, 9), process(3, 9), talker, renderer];
    assert_eq!(select_processes(&processes, 1), vec![0, 1, 3, 4]);
    assert_eq!(select_processes(&processes, 2), vec![0, 1, 2, 3, 4]);
    assert_eq!(select_processes(&processes, 0), Vec::<usize>::new());
    assert_eq!(select_processes(&processes, 50), vec![0, 1, 2, 3, 4]);
}

#[test]
fn network_bytes_saturate() {
    let mut talker = process(1, 0);
    talker.network_receive_bytes = u64::MAX;
    talker.network_transmit_bytes = 2;
    assert_eq!(process_network_bytes(&talker), u64::MAX);
    talker.network_receive_bytes = 3;
    assert_eq!(process_network_bytes(&talker), 5);
}

#[test]
fn writes_a_metric_with_its_type() {
    let mut output = String::from("before\n");
    metric(&mut output, "bbtop_x_total", "counter", "7");
    assert_eq!(output, "before\n# TYPE bbtop_x_total counter\nbbtop_x_total 7\n");
}

#[test]
fn estimates_no_draw_while_charging() {
    let snapshot = Snapshot {
        battery_power: vec![BatteryPower {
            battery: "BATT".into(),
            status: "Charging".into(),
            watts: figure(22.5),
            charge_percent: None,
        }],
        ..Snapshot::default()
    };
    let rendered = render_prometheus(&snapshot, 10);
    assert!(rendered.contains("status=\"Charging\"} 22.500000\n"));
    assert!(!rendered.contains("bbtop_laptop_power_estimate_watts{"));
    assert!(!rendered.contains("bbtop_battery_charge_percent{"));
    assert!(is_discharging("Discharging"));
    assert!(!is_discharging("Not charging"));
}

#[test]
fn several_batteries_give_their_sum() {
    let battery = |name: &str, status: &str, watts: f64| BatteryPower {
        battery: name.into(),
        status: status.into(),
        watts: figure(watts),
        charge_percent: None,
    };
    let mut snapshot = Snapshot {
        battery_power: vec![
            battery("BAT0", "Discharging", 10.5),
            battery("BAT1", "Discharging", 12.25),
            battery("BAT2", "Full", 1.0),
        ],
        discharge_watts: figure(22.75),
        ..Snapshot::default()
    };
    let line = "bbtop_laptop_power_estimate_watts{source=\"battery\"} 22.750000\n";
    assert!(render_prometheus(&snapshot, 10).contains(line));
    snapshot.discharge_watts = figure(0.0);
    assert!(!render_prometheus(&snapshot, 10).contains("bbtop_laptop_power_estimate_watts{"));
    snapshot.battery_power = vec![battery("BAT0", "Discharging", 0.0)];
    assert!(!render_prometheus(&snapshot, 10).contains("bbtop_laptop_power_estimate_watts{"));
}

#[test]
fn renders_every_other_reading() {
    let snapshot = Snapshot {
        timestamp: 1_700_000_000,
        memory_total: 8,
        load: [figure(0.5), figure(1.0), figure(1.25)],
        uptime: figure(100.25),
        fans: vec![Fan { chip: "c".into(), sensor: "fan1".into(), rpm: 1200 }],
        voltages: vec![ElectricalReading {
            chip: "c".into(),
            sensor: "in0".into(),
            value: figure(12.048),
        }],
        currents: vec![ElectricalReading {
            chip: "c".into(),
            sensor: "curr1".into(),
            value: figure(-0.5),
        }],
        temperature_limits: vec![TemperatureLimit {
            chip: "c".into(),
            sensor: "temp1".into(),
            limit: "crit".into(),
            celsius: figure(105.0),
        }],
        temperature_alarms: vec![TemperatureAlarm {
            chip: "c".into(),
            sensor: "temp1".into(),
            value: 1,
        }],
        cpu_frequencies: vec![CpuFrequency { cpu: "0".into(), hertz: 3_000_000_000 }],
        mains_supplies: vec![MainsSupply { supply: "AC".into(), online: true }],
        nvme_smart: vec![NvmeSmart {
            device: "/dev/nvme0".into(),
            data_units_read: 3,
            data_units_written: u64::MAX,
            ..NvmeSmart::default()
        }],
        gpus: vec![Gpu {
            card: "card1".into(),
            driver: "amdgpu".into(),
            busy_percent: figure(42.0),
            vram_used_bytes: 1,
            vram_total_bytes: 2,
        }],
        ..Snapshot::default()
    };
    let rendered = render_prometheus(&snapshot, 10);
    for line in [
        "# TYPE bbtop_load1 gauge\nbbtop_load1 0.5\n",
        "bbtop_load5 1\n",
        "bbtop_load15 1.25\n",
        "bbtop_uptime_seconds 100.25\n",
        "bbtop_last_collection_timestamp_seconds 1700000000\n",
        "bbtop_fans_detected 1\n",
        "# HELP bbtop_fan_speed_rpm Fan speed reported by Linux hwmon\n",
        "bbtop_fan_speed_rpm{chip=\"c\",sensor=\"fan1\"} 1200\n",
        "bbtop_voltage_volts{chip=\"c\",sensor=\"in0\"} 12.048000\n",
        "bbtop_current_amperes{chip=\"c\",sensor=\"curr1\"} -0.500000\n",
        "bbtop_temperature_limit_celsius{chip=\"c\",sensor=\"temp1\",limit=\"crit\"} 105.000\n",
        "bbtop_temperature_alarm{chip=\"c\",sensor=\"temp1\"} 1\n",
        "bbtop_cpu_frequency_hertz{cpu=\"0\"} 3000000000\n",
        "bbtop_mains_online{supply=\"AC\"} 1\n",
        "# TYPE bbtop_nvme_data_read_bytes_total counter\n",
        "# TYPE bbtop_nvme_percentage_used gauge\n",
        "bbtop_nvme_data_read_bytes_total{device=\"/dev/nvme0\"} 1536000\n",
        "bbtop_nvme_data_written_bytes_total{device=\"/dev/nvme0\"} 18446744073709551615\n",
        "bbtop_gpu_busy_percent{card=\"card1\",driver=\"amdgpu\"} 42.000\n",
        "bbtop_gpu_vram_total_bytes{card=\"card1\",driver=\"amdgpu\"} 2\n",
    ] {
        assert!(rendered.contains(line), "missing {line:?}");
    }
    assert!(rendered.starts_with("# TYPE bbtop_cpu_usage_percent gauge\nbbtop_cpu_usage_percent 0\n"));
}

#[test]
fn an_empty_snapshot_still_names_its_series() {
    let rendered = render_prometheus(&Snapshot::empty(), 50);
    assert!(rendered.contains("bbtop_info{hostname=\"\"} 1\n"));
    assert!(rendered.contains("# TYPE bbtop_process_read_bytes_total counter\n"));
    assert!(rendered.ends_with("# TYPE bbtop_process_gpu_vram_bytes gauge\n"));
}

#[test]
fn answers_each_path() {
    let snapshot = Snapshot::empty();
    assert_eq!(
        respond("GET /healthz HTTP/1.1\r\n\r\n", &snapshot, 10),
        "HTTP/1.1 200 OK\r\nContent-Type: text/plain; charset=utf-8\r\nContent-Length: 3\r\nConnection: close\r\n\r\nok\n"
    );
    assert_eq!(
        respond("", &snapshot, 10),
        "HTTP/1.1 200 OK\r\nContent-Type: text/plain; charset=utf-8\r\nContent-Length: 42\r\nConnection: close\r\n\r\nbbtop exporter\n\nGET /metrics\nGET /healthz\n"
    );
    assert_eq!(
        respond("GET /nothing HTTP/1.1", &snapshot, 10),
        "HTTP/1.1 404 Not Found\r\nContent-Type: text/plain; charset=utf-8\r\nContent-Length: 10\r\nConnection: close\r\n\r\nnot found\n"
    );
}

#[test]
fn announces_the_length_in_bytes() {
    let snapshot = Snapshot { hostname: "köln".into(), ..Snapshot::default() };
    let body = render_prometheus(&snapshot, 10);
    let answer = respond("GET /metrics HTTP/1.1", &snapshot, 10);
    assert_ne!(body.len(), body.chars().count());
    assert!(answer.contains(&format!("\r\nContent-Length: {}\r\n", body.len())));
    assert!(answer.contains("Content-Type: text/plain; version=0.0.4; charset=utf-8\r\n"));
    assert!(answer.ends_with(&body));
}
