//! What is read from the kernel and from the helpers.

use std::path::{Path, PathBuf};

use bbtop::browser::{first_number, parse_browser_tabs, parse_loadavg};
use bbtop::clock::Moment;
use bbtop::cpu::{
    cpu_usage, parse_cpu_times, read_cpu_frequencies, CpuError, CpuTimes, FrequencyPolicy,
};
use bbtop::disk::{
    decode_mount_field, disk_devices, filesystem_space, is_pseudo_filesystem, mountpoints,
    parse_diskstats, parse_mountinfo, relative_path, Space,
};
use bbtop::gpu::{
    charge, gpu_share, is_card, parse_drm_fdinfo, read_gpus, read_process_gpu, Card, DrmClient,
    Holding,
};
use bbtop::hwmon::{
    fan_sensor_name, input_sensor_number, is_wanted, power_sensor, read_electrical_readings,
    read_fans, read_power, read_temperature_alarms, read_temperature_limits, read_temperatures,
    sensor_number_with_suffix, temperature_limit, temperature_sensor_number, Chip, Electrical,
    SensorFile,
};
use bbtop::memory::{detect_page_size, parse_meminfo};
use bbtop::network::{
    parse_net_dev, parse_process_network, physical_totals, read_networks,
};
use bbtop::nvme::{json_string, json_u64, read_nvme_smart, smart_due};
use bbtop::path::{is_graphics_device, root_or_default, sys_root};
use bbtop::power_supply::{read_battery_power, read_mains_supplies, PowerSupply};
use bbtop::process::{is_well_shaped, process_id, read_process, ProcessFiles};
use bbtop::snapshot::NetworkInterface;

#[test]
fn parses_cpu_and_core_count() {
    let input = "cpu  100 2 30 400 10 0 3 0 0 0\ncpu0 1 2 3 4\ncpu1 1 2 3 4\n";
    let (times, cores) = parse_cpu_times(input).unwrap();
    assert_eq!(times.total, 545);
    assert_eq!(times.idle, 410);
    assert_eq!(cores, 2);
}

#[test]
fn parses_memory_as_bytes() {
    let values = parse_meminfo("MemTotal: 100 kB\nMemAvailable: 40 kB\n");
    assert_eq!(values.get("MemTotal"), Some(102_400));
    assert_eq!(values.get("MemAvailable"), Some(40_960));
}

#[test]
fn parses_network_interfaces_and_skips_veth() {
    let input = "Inter-| Receive | Transmit\n \
         eth0: 10 0 0 0 0 0 0 0 20 0 0 0 0 0 0 0\n \
         veth1234@if2: 30 0 0 0 0 0 0 0 40 0 0 0 0 0 0 0\n \
         lo: 50 0 0 0 0 0 0 0 60 0 0 0 0 0 0 0\n";
    let interfaces = parse_net_dev(input);
    assert_eq!(
        interfaces
            .iter()
            .map(|interface| interface.name.as_str())
            .collect::<Vec<_>>(),
        ["eth0", "lo"]
    );
    assert_eq!(interfaces[0].receive_bytes, 10);
    assert_eq!(interfaces[0].transmit_bytes, 20);
}

#[test]
fn totals_count_physical_interfaces_only() {
    let interfaces = vec![
        NetworkInterface {
            name: "eth0".into(),
            kind: "physical".into(),
            receive_bytes: 10,
            transmit_bytes: 20,
        },
        NetworkInterface {
            name: "docker0".into(),
            kind: "virtual".into(),
            receive_bytes: 1_000,
            transmit_bytes: 2_000,
        },
    ];
    assert_eq!(physical_totals(&interfaces), (10, 20));
}

#[test]
fn recognizes_fan_input_names() {
    assert_eq!(fan_sensor_name("fan12_input").as_deref(), Some("fan12"));
    assert_eq!(fan_sensor_name("fan1_min"), None);
    assert_eq!(fan_sensor_name("temp1_input"), None);
}

#[test]
fn parses_drm_fdinfo() {
    let input = "pos:\t0\ndrm-driver:\tamdgpu\ndrm-pdev:\t0000:c1:00.0\n\
         drm-client-id:\t13\ndrm-memory-vram:\t868 KiB\ndrm-engine-gfx:\t1000 ns\n\
         drm-engine-compute:\t500 ns\n";
    let client = parse_drm_fdinfo(input).unwrap();
    assert_eq!(client.key, ("0000:c1:00.0".to_owned(), 13));
    assert_eq!(client.nanoseconds, 1_500);
    assert_eq!(client.vram_bytes, 868 * 1024);
    assert_eq!(client.descriptors, 1);
}

#[test]
fn ignores_fdinfo_without_a_drm_client() {
    assert!(parse_drm_fdinfo("pos:\t0\nflags:\t02\n").is_none());
}

#[test]
fn parses_browser_tabs_with_spaced_titles() {
    let table = parse_browser_tabs(
        "# pid cpu_percent memory_bytes windows site title\n\
         7007 57.3 1552 2 grafana.dubrovskih.ru Grafana - bbtop Linux overview\n\
         bad line\n",
    );
    assert_eq!(table.len(), 1);
    assert_eq!(table[0].pid, 7007);
    assert_eq!(table[0].cpu_percent.parse::<f64>().unwrap(), 57.3);
    assert_eq!(table[0].windows, 2);
    assert_eq!(table[0].site, "grafana.dubrovskih.ru");
    assert_eq!(table[0].title, "Grafana - bbtop Linux overview");
}

#[test]
fn parses_process_network_table() {
    let table = parse_process_network("# pid receive_bytes transmit_bytes\n42 100 200\nbad\n");
    assert_eq!(table[&42], (100, 200));
    assert_eq!(table.len(), 1);
}

#[test]
fn decodes_mountinfo_fields() {
    assert_eq!(decode_mount_field("/media/My\\040Disk"), "/media/My Disk");
    assert!(is_pseudo_filesystem("tmpfs"));
    assert!(is_pseudo_filesystem("efivarfs"));
    assert!(!is_pseudo_filesystem("ext4"));
}

#[test]
fn rejects_a_cpu_line_that_is_missing_or_short() {
    assert_eq!(parse_cpu_times("").unwrap_err(), CpuError::Missing);
    assert_eq!(parse_cpu_times("").unwrap_err().message(), "missing aggregate CPU line");
    let error = parse_cpu_times("cpu 1 2 3\n").unwrap_err();
    assert_eq!(error, CpuError::Invalid);
    assert_eq!(error.message(), "invalid aggregate CPU line");
    assert_eq!(parse_cpu_times("\n").unwrap_err(), CpuError::Invalid);
}

#[test]
fn cpu_times_without_a_fifth_field_wait_for_nothing() {
    let (times, cores) = parse_cpu_times("cpu 1 2 3 4\ncpux 1\ncpu\ncpu7\n").unwrap();
    assert_eq!((times.total, times.idle, cores), (10, 4, 1));
}

#[test]
fn cpu_usage_takes_counters_that_went_back_as_no_time() {
    let before = CpuTimes { total: 100, idle: 50 };
    let usage = cpu_usage(before, CpuTimes { total: 150, idle: 70 });
    assert_eq!((usage.busy, usage.total), (30, 50));
    let usage = cpu_usage(before, CpuTimes { total: 90, idle: 70 });
    assert_eq!((usage.busy, usage.total), (0, 0));
    let usage = cpu_usage(before, CpuTimes { total: 101, idle: 70 });
    assert_eq!((usage.busy, usage.total), (0, 1));
}

#[test]
fn reads_frequencies_per_cpu() {
    let policies = vec![
        FrequencyPolicy {
            affected_cpus: Some("2 10\n".into()),
            scaling_cur_freq: Some("1400000\n".into()),
        },
        FrequencyPolicy {
            affected_cpus: Some("1".into()),
            scaling_cur_freq: Some("-5".into()),
        },
        FrequencyPolicy { affected_cpus: Some("3".into()), scaling_cur_freq: None },
        FrequencyPolicy { affected_cpus: None, scaling_cur_freq: Some("1".into()) },
    ];
    let found: Vec<(String, u64)> = read_cpu_frequencies(&policies)
        .into_iter()
        .map(|frequency| (frequency.cpu, frequency.hertz))
        .collect();
    assert_eq!(
        found,
        vec![
            ("1".to_owned(), 0),
            ("10".to_owned(), 1_400_000_000),
            ("2".to_owned(), 1_400_000_000),
        ]
    );
}

#[test]
fn meminfo_keeps_the_last_of_a_key() {
    let values = parse_meminfo("A: 1 kB\nA: 2\nB:\nC 3\nD: x\n");
    assert_eq!(values.get("A"), Some(2048));
    assert_eq!(values.get("B"), None);
    assert_eq!(values.get("C"), None);
    assert_eq!(values.get_or_zero("D"), 0);
}

#[test]
fn finds_the_page_size() {
    assert_eq!(detect_page_size(None), 4096);
    let smaps = "x\nKernelPageSize: ?\nKernelPageSize:       16 kB\nKernelPageSize: 4 kB\n".to_owned();
    assert_eq!(detect_page_size(Some(&smaps)), 16 * 1024);
    assert_eq!(detect_page_size(Some(&"nothing\n".to_owned())), 4096);
}

#[test]
fn interfaces_are_sorted_and_told_apart() {
    let input = " wlan0: 1 0 0 0 0 0 0 0 2\nbr0: 3\n : 9\nno colon\nvethx: 1\n";
    let found: Vec<(String, String, u64, u64)> =
        read_networks(input, &vec!["wlan0".to_owned(), "eth7".to_owned()])
            .into_iter()
            .map(|i| (i.name, i.kind, i.receive_bytes, i.transmit_bytes))
            .collect();
    assert_eq!(
        found,
        vec![
            ("br0".to_owned(), "virtual".to_owned(), 3, 0),
            ("wlan0".to_owned(), "physical".to_owned(), 1, 2),
        ]
    );
}

#[test]
fn kinds_keep_the_order_of_repeated_names() {
    let input = "b: 1\na: 2\nb: 3\na: 4\nb: 5\nc: 6\n";
    let plain = parse_net_dev(input);
    let kinds = read_networks(input, &vec!["b".to_owned()]);
    assert_eq!(plain.iter().map(|i| i.receive_bytes).collect::<Vec<u64>>(), [2, 4, 1, 3, 5, 6]);
    assert_eq!(plain.len(), kinds.len());
    for (before, after) in plain.iter().zip(&kinds) {
        assert_eq!(before.name, after.name);
        assert_eq!(before.receive_bytes, after.receive_bytes);
        assert_eq!(before.transmit_bytes, after.transmit_bytes);
        assert_eq!(after.kind, if after.name == "b" { "physical" } else { "virtual" });
    }
}

#[test]
fn paths_are_taken_by_their_components() {
    for target in [
        "/dev/dri/card0", "/dev/dri", "/dev//dri/x", "/dev/./dri", "//dev/dri/", "/dev/drill/0",
        "/dev/null", "dev/dri/card0", "./dev/dri", "socket:[1]", "", "/", "/../dev/dri", "/dev",
    ] {
        let expected = Path::new(target).starts_with(Path::new("/dev/dri"));
        assert_eq!(is_graphics_device(target.as_bytes()), expected, "{target}");
    }
    for root in [
        "/proc", "/proc/", "/host/proc", "//host//proc", "/a/./b/proc", "/", "", ".", "..", "proc",
        "./proc", "a/b", "../proc/.", "/host/..", "/./",
    ] {
        let path = Path::new(root);
        let expected = if path == Path::new("/proc") {
            PathBuf::from("/sys")
        } else {
            path.parent().unwrap_or(Path::new("/")).join("sys")
        };
        let found = String::from_utf8(sys_root(root.as_bytes())).unwrap();
        assert_eq!(Path::new(&found), expected, "{root}");
    }
    assert_eq!(root_or_default(&None, "/proc"), b"/proc");
    assert_eq!(root_or_default(&Some(vec![47, 255]), "/proc"), vec![47, 255]);
}

#[test]
fn disks_count_without_their_partitions() {
    let input = "\
 259 0 nvme0n1 1 0 100 0 1 0 200 0 0 0 0
 259 1 nvme0n1p1 1 0 90 0 1 0 190 0 0 0 0
   7 0 loop0 1 0 5 0 1 0 5 0 0 0 0
   1 0 ram0 1 0 5 0 1 0 5 0 0 0 0
   8 0 sda 1 0 x 0 1 0 3 0 0 0 0
   8 1 short 1 0 7
";
    assert_eq!(disk_devices(input), vec!["259:0", "259:1", "8:0"]);
    assert_eq!(parse_diskstats(input, &vec!["259:1".to_owned()]), (51_200, 103_936));
    assert_eq!(parse_diskstats("", &Vec::new()), (0, 0));
}

#[test]
fn mount_fields_read_back() {
    for text in ["/plain", "/a b\tc\nd\\e", "\\", "\\040", "/x\\134y", "/ü \\"] {
        let encoded: String = text
            .chars()
            .map(|c| match c {
                ' ' => "\\040".to_owned(),
                '\t' => "\\011".to_owned(),
                '\n' => "\\012".to_owned(),
                '\\' => "\\134".to_owned(),
                c => c.to_string(),
            })
            .collect();
        assert_eq!(decode_mount_field(&encoded), text);
        let replaced = text
            .replace("\\040", " ")
            .replace("\\011", "\t")
            .replace("\\012", "\n")
            .replace("\\134", "\\");
        assert_eq!(decode_mount_field(text), replaced);
    }
}

#[test]
fn lists_each_mount_point_once() {
    let input = "\
25 1 0:1 / /proc rw - proc proc rw
26 1 8:2 / / rw,relatime shared:1 - ext4 /dev/sda2 rw
27 1 8:3 / /My\\040Disk rw - ext4 /dev/sda3 rw
28 1 8:4 / / rw - xfs /dev/sdb1 rw
29 1 8:5 / /gone rw - xfs /dev/sdc1 rw
30 1 8:6 / /short rw - xfs
no separator
";
    let spaces = vec![
        Space { mountpoint: "/".into(), block_size: 4096, blocks: 100, available_blocks: 40 },
        Space {
            mountpoint: "/My Disk".into(),
            block_size: u64::MAX,
            blocks: 2,
            available_blocks: 1,
        },
    ];
    assert_eq!(mountpoints(input), vec!["/", "/My Disk", "/", "/gone"]);
    let found = parse_mountinfo(input, &spaces);
    assert_eq!(found.len(), 2);
    assert_eq!(found[0].mountpoint, "/");
    assert_eq!(found[0].device, "/dev/sda2");
    assert_eq!(found[0].filesystem_type, "ext4");
    assert_eq!((found[0].size_bytes, found[0].available_bytes), (409_600, 163_840));
    assert_eq!(found[1].mountpoint, "/My Disk");
    assert_eq!((found[1].size_bytes, found[1].available_bytes), (u64::MAX, u64::MAX));
    assert_eq!(filesystem_space(&spaces, "/gone"), None);
    assert_eq!(relative_path("//var/lib"), "var/lib");
    assert_eq!(relative_path("/"), "");
    assert_eq!(relative_path("a/b"), "a/b");
}

#[test]
fn recognizes_sensor_names() {
    assert_eq!(temperature_sensor_number("temp3_input").as_deref(), Some("3"));
    assert_eq!(temperature_sensor_number("temp_input"), None);
    assert_eq!(temperature_sensor_number("temp1x_input"), None);
    assert_eq!(power_sensor("power1_average"), Some(("1".to_owned(), "average".to_owned())));
    assert_eq!(power_sensor("power12_input"), Some(("12".to_owned(), "input".to_owned())));
    assert_eq!(power_sensor("power1_cap"), None);
    assert_eq!(input_sensor_number("in0_input", "in").as_deref(), Some("0"));
    assert_eq!(input_sensor_number("curr1_input", "in"), None);
    assert_eq!(sensor_number_with_suffix("temp2_alarm", "temp", "alarm").as_deref(), Some("2"));
    assert_eq!(temperature_limit("temp1_emergency"), Some(("1".to_owned(), "emergency".to_owned())));
    assert_eq!(temperature_limit("temp1_crit"), Some(("1".to_owned(), "crit".to_owned())));
    assert_eq!(temperature_limit("temp1_crit_hyst"), None);
    for name in ["fan1_label", "temp1_max", "in3_input", "curr2_input", "power1_average"] {
        assert!(is_wanted(name));
    }
    for name in ["uevent", "name", "pwm1", "fan1_min", "temp1_crit_hyst"] {
        assert!(!is_wanted(name));
    }
}

fn file(name: &str, content: &str) -> SensorFile {
    SensorFile { name: name.to_owned(), content: Some(content.to_owned()) }
}

fn chips() -> Vec<Chip> {
    vec![
        Chip {
            directory: "hwmon3".into(),
            name: Some("nct6775\n".into()),
            files: Some(vec![
                file("fan2_input", "900\n"),
                file("fan1_input", "1200\n"),
                file("fan1_label", " CPU fan \n"),
                file("fan3_input", "-1\n"),
                file("temp1_input", "-5000\n"),
                file("temp1_label", "  \n"),
                file("temp1_crit", "105000\n"),
                file("temp1_max", "65261850\n"),
                file("temp1_min", "-100000"),
                file("temp1_alarm", "1\n"),
                file("temp2_alarm", "-1\n"),
                file("in0_input", "12048\n"),
                file("curr1_input", "-500\n"),
                file("power1_input", "16053000\n"),
                file("power1_average", "15000000\n"),
                file("power1_label", "PPT\n"),
                SensorFile { name: "temp9_input".into(), content: None },
            ]),
        },
        Chip {
            directory: "hwmon1".into(),
            name: None,
            files: Some(vec![file("fan1_input", "700"), file("temp1_input", "64125")]),
        },
        Chip { directory: "hwmon2".into(), name: Some("lost".into()), files: None },
    ]
}

#[test]
fn reads_fans_by_chip_and_sensor() {
    let found: Vec<(String, String, u64)> = read_fans(&chips())
        .into_iter()
        .map(|fan| (fan.chip, fan.sensor, fan.rpm))
        .collect();
    assert_eq!(
        found,
        vec![
            ("hwmon1".to_owned(), "fan1".to_owned(), 700),
            ("nct6775".to_owned(), "CPU fan".to_owned(), 1200),
            ("nct6775".to_owned(), "fan2".to_owned(), 900),
        ]
    );
}

#[test]
fn reads_the_other_sensors() {
    let chips = chips();
    let rows = |readings: Vec<bbtop::hwmon::Reading>| -> Vec<String> {
        readings
            .into_iter()
            .map(|r| format!("{}/{}/{}={}", r.chip, r.sensor, r.detail, r.value))
            .collect()
    };
    assert_eq!(
        rows(read_temperatures(&chips)),
        vec!["nct6775/temp1/=-5000", "unknown/temp1/=64125"]
    );
    assert_eq!(
        rows(read_power(&chips)),
        vec!["nct6775/PPT/average=15000000", "nct6775/PPT/input=16053000"]
    );
    assert_eq!(rows(read_electrical_readings(&chips, Electrical::Voltage)), vec!["nct6775/in0/=12048"]);
    assert_eq!(rows(read_electrical_readings(&chips, Electrical::Current)), vec!["nct6775/curr1/=-500"]);
    assert_eq!(
        rows(read_temperature_limits(&chips)),
        vec!["nct6775/temp1/crit=105000", "nct6775/temp1/min=-100000"]
    );
    let alarms = read_temperature_alarms(&chips);
    assert_eq!(alarms.len(), 1);
    assert_eq!((alarms[0].sensor.as_str(), alarms[0].value), ("temp1", 1));
}

#[test]
fn tells_batteries_from_mains() {
    let supplies = vec![
        PowerSupply {
            name: "BAT1".into(),
            kind: Some("Battery\n".into()),
            voltage_now: Some("12000000\n".into()),
            current_now: Some("-1500000\n".into()),
            status: None,
            capacity: Some("77\n".into()),
            online: None,
        },
        PowerSupply {
            name: "AC".into(),
            kind: Some("Mains\n".into()),
            voltage_now: None,
            current_now: None,
            status: None,
            capacity: None,
            online: Some("1\n".into()),
        },
        PowerSupply {
            name: "BAT0".into(),
            kind: Some("Battery".into()),
            voltage_now: Some("-9223372036854775808".into()),
            current_now: Some("3".into()),
            status: Some(" Discharging \n".into()),
            capacity: None,
            online: None,
        },
        PowerSupply {
            name: "BAT2".into(),
            kind: Some("Battery".into()),
            voltage_now: Some("1".into()),
            current_now: None,
            status: None,
            capacity: None,
            online: None,
        },
    ];
    let batteries = read_battery_power(&supplies);
    assert_eq!(batteries.len(), 2);
    assert_eq!(batteries[0].name, "BAT0");
    assert_eq!(batteries[0].status, "Discharging");
    assert_eq!(batteries[0].microvolts, 9_223_372_036_854_775_808);
    assert_eq!(batteries[0].charge_percent, None);
    assert_eq!(batteries[1].status, "Unknown");
    assert_eq!(batteries[1].microamperes, 1_500_000);
    assert_eq!(batteries[1].charge_percent, Some(77));
    let mains = read_mains_supplies(&supplies);
    assert_eq!(mains.len(), 1);
    assert_eq!(mains[0].supply, "AC");
    assert!(mains[0].online);
}

#[test]
fn reads_cards_that_report_their_load() {
    let card = |name: &str, busy: Option<&str>| Card {
        name: name.to_owned(),
        driver: None,
        gpu_busy_percent: busy.map(str::to_owned),
        mem_info_vram_used: Some("-4".into()),
        mem_info_vram_total: Some("8192\n".into()),
    };
    let cards = vec![
        card("card10", Some("7")),
        card("card1", Some("42\n")),
        card("card1-eDP-1", Some("1")),
        card("card2", None),
        card("renderD128", Some("1")),
    ];
    let found = read_gpus(&cards);
    assert_eq!(found.len(), 2);
    assert_eq!((found[0].card.as_str(), found[0].busy_percent), ("card1", 42));
    assert_eq!((found[1].card.as_str(), found[1].driver.as_str()), ("card10", "unknown"));
    assert_eq!((found[0].vram_used_bytes, found[0].vram_total_bytes), (0, 8192));
    assert!(is_card("card0"));
    assert!(!is_card("card"));
}

fn info(client: u64, nanoseconds: u64) -> String {
    format!("drm-pdev: a\ndrm-client-id: {client}\ndrm-memory-vram: 2\ndrm-engine-gfx: {nanoseconds} ns\n")
}

#[test]
fn duplicated_descriptors_are_one_context() {
    let infos = vec![info(1, 10), info(2, 20), info(1, 99), "pos: 0\n".to_owned()];
    let clients = read_process_gpu(&infos);
    assert_eq!(clients.len(), 2);
    assert_eq!((clients[0].key.1, clients[0].nanoseconds, clients[0].descriptors), (1, 10, 2));
    assert_eq!((clients[1].key.1, clients[1].vram_bytes, clients[1].descriptors), (2, 2048, 1));
}

fn holding(pid: u32, client: u64, descriptors: u32, nanoseconds: u64) -> Holding {
    Holding {
        pid,
        client: DrmClient {
            key: ("a".to_owned(), client),
            nanoseconds,
            vram_bytes: 100,
            descriptors,
        },
    }
}

#[test]
fn a_context_is_charged_to_its_main_holder() {
    let charges = charge(vec![
        holding(10, 1, 3, 1_000),
        holding(20, 1, 1, 1_000),
        holding(30, 2, 1, 500),
        holding(25, 2, 1, 500),
        holding(40, 3, 2, 7),
        holding(41, 3, 2, 7),
    ]);
    let owners: Vec<(u64, u32)> = charges.iter().map(|c| (c.client.key.1, c.pid)).collect();
    assert_eq!(owners, vec![(1, 10), (2, 30), (3, 41)]);
    let before = vec![holding(99, 1, 1, 400)];
    assert_eq!(gpu_share(&charges, &before, 10), (vec![600], 100));
    assert_eq!(gpu_share(&charges, &before, 30), (vec![0], 100));
    assert_eq!(gpu_share(&charges, &before, 20), (vec![], 0));
    assert_eq!(gpu_share(&charges, &charges, 10), (vec![0], 100));
}

#[test]
fn reads_the_health_log() {
    let json = "{\"device\": {\"name\": \"/dev/nvme0\"}, \"nvme_smart_health_information_log\": {\
        \"critical_warning\": 0, \"available_spare\": 100, \"percentage_used\": 3,\n\
        \"data_units_read\":12, \"num_err_log_entries\": 9}}"
        .to_owned();
    let found = read_nvme_smart(Some(&json));
    assert_eq!(found.len(), 1);
    assert_eq!(found[0].device, "/dev/nvme0");
    assert_eq!(found[0].percentage_used, 3);
    assert_eq!(found[0].available_spare, 100);
    assert_eq!(found[0].data_units_read, 12);
    assert_eq!(found[0].error_log_entries, 9);
    assert_eq!(found[0].power_cycles, 0);
    assert!(read_nvme_smart(None).is_empty());
    assert!(read_nvme_smart(Some(&"{\"percentage_used\": 1}".to_owned())).is_empty());
    let unnamed = "\"nvme_smart_health_information_log\" \"percentage_used\":1,\"available_spare\":2".to_owned();
    assert_eq!(read_nvme_smart(Some(&unnamed))[0].device, "nvme0");
    assert_eq!(json_u64("\"a\":  12x", "a"), Some(12));
    assert_eq!(json_u64("\"a\": x", "a"), None);
    assert_eq!(json_u64("\"a\": 99999999999999999999", "a"), None);
    assert_eq!(json_string("\"a\": \"b\\\"c\"", "a").as_deref(), Some("b\\"));
    assert_eq!(json_string("\"a\": b", "a"), None);
    let at = |seconds, nanoseconds| Moment { seconds, nanoseconds };
    assert!(smart_due(None, at(0, 0)));
    assert!(smart_due(Some(at(0, 1)), at(60, 1)));
    assert!(!smart_due(Some(at(0, 1)), at(60, 0)));
    assert!(smart_due(Some(at(0, 1)), at(0, 0)));
}

#[test]
fn tabs_need_every_field() {
    assert!(parse_browser_tabs("1 2 3 4 site\n").is_empty());
    assert!(parse_browser_tabs("1  2 3 4 site title\n").is_empty());
    assert!(parse_browser_tabs("1 many 3 4 site title\n").is_empty());
    let tabs = parse_browser_tabs("1 1e3 3 4  title with blanks \n");
    assert_eq!(tabs.len(), 1);
    assert_eq!(tabs[0].site, "");
    assert_eq!(tabs[0].title, "title with blanks");
    assert_eq!(tabs[0].memory_bytes, 3);
}

#[test]
fn reads_load_and_uptime() {
    let load = parse_loadavg("0.50 x 1.25 2 3/400 99\n");
    assert_eq!(load, ["0.50".to_owned(), "1.25".to_owned(), "2".to_owned()]);
    assert_eq!(parse_loadavg("1"), ["1".to_owned(), "0".to_owned(), "0".to_owned()]);
    assert_eq!(first_number(" 123.45 678\n").as_deref(), Some("123.45"));
    assert_eq!(first_number("x 1"), None);
    assert_eq!(first_number(""), None);
}

fn stat(name: &str) -> String {
    format!("42 ({name}) R 1 2 3 4 5 6 7 8 9 10 100 23 14 15 16 17 5 19 20 4096 3 22")
}

#[test]
fn reads_a_process_with_brackets_in_its_name() {
    let files = ProcessFiles {
        pid: 42,
        stat: Some(stat("a) (b")),
        io: Some("rchar: 1\nread_bytes: 10\nwrite_bytes: 20\nread_bytes: 11\n".into()),
        fdinfos: vec![info(1, 5)],
    };
    let read = read_process(&files, 4096).unwrap();
    assert_eq!(read.name, "a) (b");
    assert_eq!(read.state, 'R');
    assert_eq!(read.ticks, 123);
    assert_eq!(read.threads, 5);
    assert_eq!(read.virtual_bytes, 4096);
    assert_eq!(read.rss_bytes, 3 * 4096);
    assert_eq!((read.read_bytes, read.write_bytes), (11, 20));
    assert_eq!(read.clients.len(), 1);
}

#[test]
fn passes_over_processes_that_say_too_little() {
    let read = |stat: Option<&str>| {
        read_process(
            &ProcessFiles {
                pid: 1,
                stat: stat.map(str::to_owned),
                io: None,
                fdinfos: Vec::new(),
            },
            4096,
        )
    };
    assert!(read(None).is_none());
    assert!(read(Some("no brackets")).is_none());
    assert!(read(Some("1 (short) S 1 2")).is_none());
    assert!(read(Some(&stat("x").replace(" 100 ", " y "))).is_none());
    let lone = stat("x").replace(" 5 19", " y 19");
    assert_eq!(read(Some(&lone)).unwrap().threads, 0);
    assert!(is_well_shaped(&lone));
    assert!(is_well_shaped("no brackets"));
    assert!(!is_well_shaped(")("));
    assert!(!is_well_shaped("1 (x)"));
    assert!(!is_well_shaped("1 (x)é"));
    assert_eq!(process_id("42"), Some(42));
    assert_eq!(process_id("self"), None);
    assert_eq!(process_id("4294967296"), None);
}
