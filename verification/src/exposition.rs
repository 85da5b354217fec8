//! What a reader finds in the exposition of a snapshot.

use crate::list::{kept, lemma_kept_source};
use crate::metrics::{
    activity_of, alarm_line_of, alarms_of, batteries_of, battery_lines_of, data_bytes, discharges,
    discharging, estimate, exposition, fan_line_of, fans_of, filesystem_lines_of, filesystems_of,
    flag, frequencies_of, frequency_line_of, gauge_of, gpu_lines_of, gpus_of, host_of, joined,
    kind_of, label_of, limit_line_of, limits_of, metric_of, network_lines_of, networks_of,
    nvme_lines_of, nvme_of, plain_sample, power_line_of, powers_of, process_lines_of,
    process_types_of, processes_of, reading_line_of, readings_of, sample_of, series_of, supplies_of,
    supply_line_of, temperature_line_of, temperatures_of, type_of, used_bytes,
};
use crate::number::{decimal, law_decimal_reads_back, value};
use crate::scrape::{
    all_named, is_name, kinds, label_list, law_readings_of_both, lemma_bare_label,
    lemma_decimal_unbroken, lemma_help, lemma_joined, lemma_kept_all, lemma_kept_empty,
    lemma_nothing, lemma_one_label, lemma_plain, lemma_sample, lemma_three_labels, lemma_two_labels,
    lemma_type, one, samples, unbroken, unescapable, Sampled,
};
use crate::selection::{law_selection_is_bounded, selection};
use crate::snapshot::{
    BatteryPowerView, CpuFrequencyView, ElectricalReadingView, FanView, FigureView, FilesystemView,
    GpuView, MainsSupplyView, NetworkInterfaceView, NvmeSmartView, PowerView, ProcessView, Snapshot,
    TemperatureAlarmView, TemperatureLimitView, TemperatureView,
};
use crate::text::{complete, digits, ends, one_line, views};
use vstd::prelude::*;

verus! {

proof fn lemma_flag(holds: bool)
    ensures
        flag(holds) == decimal(if holds {
            1
        } else {
            0
        }),
{
    reveal_strlit("1");
    reveal_strlit("0");
    assert(flag(holds) =~= decimal(if holds {
        1
    } else {
        0
    }));
}

proof fn lemma_gauge(metric: Seq<char>, help: Seq<char>, name: Seq<char>)
    requires
        is_name(metric),
        one_line(help),
        help.len() > 0,
    ensures
        complete(gauge_of(metric, help)),
        samples(gauge_of(metric, help), name) == Seq::<Sampled>::empty(),
        kinds(gauge_of(metric, help), name) == if name == metric {
            seq!["gauge"@]
        } else {
            Seq::empty()
        },
{
    lemma_keys();
    lemma_help(metric, help, name);
    lemma_type(metric, "gauge"@, name);
    law_readings_of_both(
        crate::metrics::help_of(metric, help),
        type_of(metric, "gauge"@),
        name,
    );
    assert(samples(gauge_of(metric, help), name) =~= Seq::<Sampled>::empty());
    assert(kinds(gauge_of(metric, help), name) =~= if name == metric {
        seq!["gauge"@]
    } else {
        Seq::empty()
    });
}

proof fn lemma_sample_next(
    text: Seq<char>,
    metric: Seq<char>,
    pairs: Seq<(Seq<char>, Seq<char>)>,
    value: Seq<char>,
    name: Seq<char>,
)
    requires
        complete(text),
        is_name(metric),
        pairs.len() > 0,
        all_named(pairs),
        unbroken(value),
        kinds(text, name) == Seq::<Seq<char>>::empty(),
        name == metric ==> samples(text, name) == Seq::<Sampled>::empty(),
    ensures
        complete(text + sample_of(metric, label_list(pairs), value)),
        samples(text + sample_of(metric, label_list(pairs), value), name) == if name == metric {
            seq![Sampled { labels: pairs, value }]
        } else {
            samples(text, name)
        },
        kinds(text + sample_of(metric, label_list(pairs), value), name) == Seq::<
            Seq<char>,
        >::empty(),
{
    let next = sample_of(metric, label_list(pairs), value);
    lemma_sample(metric, pairs, value, name);
    law_readings_of_both(text, next, name);
    assert(samples(text + next, name) =~= if name == metric {
        seq![Sampled { labels: pairs, value }]
    } else {
        samples(text, name)
    });
    assert(kinds(text + next, name) =~= Seq::<Seq<char>>::empty());
}

/// What tells the names of the metrics apart: the length and three of the characters.
#[verifier::opaque]
spec fn mark(s: Seq<char>) -> int {
    s.len() * 0x100_0000 + code(s, 10) * 0x1_0000 + code(s, 14) * 0x100 + code(s, 17)
}

spec fn code(s: Seq<char>, i: int) -> int {
    if i < s.len() {
        s[i] as int
    } else {
        0
    }
}

proof fn lemma_names_a()
    ensures
        is_name("bbtop_battery_charge_percent"@),
        mark("bbtop_battery_charge_percent"@) == 0x1c656372,
        is_name("bbtop_battery_power_watts"@),
        mark("bbtop_battery_power_watts"@) == 0x19657065,
        is_name("bbtop_cpu_frequency_hertz"@),
        mark("bbtop_cpu_frequency_hertz"@) == 0x19667563,
        is_name("bbtop_cpu_logical_count"@),
        mark("bbtop_cpu_logical_count"@) == 0x176c635f,
        is_name("bbtop_cpu_usage_percent"@),
        mark("bbtop_cpu_usage_percent"@) == 0x17756565,
        is_name("bbtop_current_amperes"@),
        mark("bbtop_current_amperes"@) == 0x15656165,
        is_name("bbtop_disk_read_bytes_total"@),
        mark("bbtop_disk_read_bytes_total"@) == 0x1b5f6479,
        is_name("bbtop_disk_write_bytes_total"@),
        mark("bbtop_disk_write_bytes_total"@) == 0x1c5f7462,
        kind_of("bbtop_battery_charge_percent"@) == "gauge"@,
        kind_of("bbtop_battery_power_watts"@) == "gauge"@,
        kind_of("bbtop_cpu_frequency_hertz"@) == "gauge"@,
        kind_of("bbtop_cpu_logical_count"@) == "gauge"@,
        kind_of("bbtop_cpu_usage_percent"@) == "gauge"@,
        kind_of("bbtop_current_amperes"@) == "gauge"@,
        kind_of("bbtop_disk_read_bytes_total"@) == "counter"@,
        kind_of("bbtop_disk_write_bytes_total"@) == "counter"@,
{
    reveal(mark);
    reveal(is_name);
    reveal_strlit("_total");
    reveal_strlit("bbtop_battery_charge_percent");
    reveal_strlit("bbtop_battery_power_watts");
    reveal_strlit("bbtop_cpu_frequency_hertz");
    reveal_strlit("bbtop_cpu_logical_count");
    reveal_strlit("bbtop_cpu_usage_percent");
    reveal_strlit("bbtop_current_amperes");
    reveal_strlit("bbtop_disk_read_bytes_total");
    reveal_strlit("bbtop_disk_write_bytes_total");
    assert("bbtop_battery_charge_percent"@.skip(22)[0] == 'e');
    assert("bbtop_battery_power_watts"@.skip(19)[1] == 'w');
    assert("bbtop_cpu_frequency_hertz"@.skip(19)[1] == 'h');
    assert("bbtop_cpu_logical_count"@.skip(17)[1] == 'c');
    assert("bbtop_cpu_usage_percent"@.skip(17)[0] == 'e');
    assert("bbtop_current_amperes"@.skip(15)[0] == 'm');
    assert("bbtop_disk_read_bytes_total"@.skip(21) =~= "_total"@);
    assert("bbtop_disk_write_bytes_total"@.skip(22) =~= "_total"@);
}

proof fn lemma_names_b()
    ensures
        is_name("bbtop_fan_speed_rpm"@),
        mark("bbtop_fan_speed_rpm"@) == 0x13736470,
        is_name("bbtop_fans_detected"@),
        mark("bbtop_fans_detected"@) == 0x135f6565,
        is_name("bbtop_filesystem_available_bytes"@),
        mark("bbtop_filesystem_available_bytes"@) == 0x20736561,
        is_name("bbtop_filesystem_size_bytes"@),
        mark("bbtop_filesystem_size_bytes"@) == 0x1b736573,
        is_name("bbtop_filesystem_used_bytes"@),
        mark("bbtop_filesystem_used_bytes"@) == 0x1b736575,
        is_name("bbtop_gpu_busy_percent"@),
        mark("bbtop_gpu_busy_percent"@) == 0x16625f72,
        is_name("bbtop_gpu_vram_total_bytes"@),
        mark("bbtop_gpu_vram_total_bytes"@) == 0x1a765f74,
        is_name("bbtop_gpu_vram_used_bytes"@),
        mark("bbtop_gpu_vram_used_bytes"@) == 0x19765f65,
        kind_of("bbtop_fan_speed_rpm"@) == "gauge"@,
        kind_of("bbtop_fans_detected"@) == "gauge"@,
        kind_of("bbtop_filesystem_available_bytes"@) == "gauge"@,
        kind_of("bbtop_filesystem_size_bytes"@) == "gauge"@,
        kind_of("bbtop_filesystem_used_bytes"@) == "gauge"@,
        kind_of("bbtop_gpu_busy_percent"@) == "gauge"@,
        kind_of("bbtop_gpu_vram_total_bytes"@) == "gauge"@,
        kind_of("bbtop_gpu_vram_used_bytes"@) == "gauge"@,
{
    reveal(mark);
    reveal(is_name);
    reveal_strlit("_total");
    reveal_strlit("bbtop_fan_speed_rpm");
    reveal_strlit("bbtop_fans_detected");
    reveal_strlit("bbtop_filesystem_available_bytes");
    reveal_strlit("bbtop_filesystem_size_bytes");
    reveal_strlit("bbtop_filesystem_used_bytes");
    reveal_strlit("bbtop_gpu_busy_percent");
    reveal_strlit("bbtop_gpu_vram_total_bytes");
    reveal_strlit("bbtop_gpu_vram_used_bytes");
    assert("bbtop_fan_speed_rpm"@.skip(13)[0] == 'e');
    assert("bbtop_fans_detected"@.skip(13)[0] == 't');
    assert("bbtop_filesystem_available_bytes"@.skip(26)[1] == 'b');
    assert("bbtop_filesystem_size_bytes"@.skip(21)[1] == 'b');
    assert("bbtop_filesystem_used_bytes"@.skip(21)[1] == 'b');
    assert("bbtop_gpu_busy_percent"@.skip(16)[0] == 'e');
    assert("bbtop_gpu_vram_total_bytes"@.skip(20)[1] == 'b');
    assert("bbtop_gpu_vram_used_bytes"@.skip(19)[1] == 'b');
}

proof fn lemma_names_c()
    ensures
        is_name("bbtop_info"@),
        mark("bbtop_info"@) == 0xa000000,
        is_name("bbtop_laptop_power_estimate_watts"@),
        mark("bbtop_laptop_power_estimate_watts"@) == 0x216f6f72,
        is_name("bbtop_last_collection_timestamp_seconds"@),
        mark("bbtop_last_collection_timestamp_seconds"@) == 0x275f6c74,
        is_name("bbtop_load1"@),
        mark("bbtop_load1"@) == 0xb310000,
        is_name("bbtop_load15"@),
        mark("bbtop_load15"@) == 0xc310000,
        is_name("bbtop_load5"@),
        mark("bbtop_load5"@) == 0xb350000,
        is_name("bbtop_mains_online"@),
        mark("bbtop_mains_online"@) == 0x12736c65,
        is_name("bbtop_memory_available_bytes"@),
        mark("bbtop_memory_available_bytes"@) == 0x1c72766c,
        kind_of("bbtop_info"@) == "gauge"@,
        kind_of("bbtop_laptop_power_estimate_watts"@) == "gauge"@,
        kind_of("bbtop_last_collection_timestamp_seconds"@) == "gauge"@,
        kind_of("bbtop_load1"@) == "gauge"@,
        kind_of("bbtop_load15"@) == "gauge"@,
        kind_of("bbtop_load5"@) == "gauge"@,
        kind_of("bbtop_mains_online"@) == "gauge"@,
        kind_of("bbtop_memory_available_bytes"@) == "gauge"@,
{
    reveal(mark);
    reveal(is_name);
    reveal_strlit("_total");
    reveal_strlit("bbtop_info");
    reveal_strlit("bbtop_laptop_power_estimate_watts");
    reveal_strlit("bbtop_last_collection_timestamp_seconds");
    reveal_strlit("bbtop_load1");
    reveal_strlit("bbtop_load15");
    reveal_strlit("bbtop_load5");
    reveal_strlit("bbtop_mains_online");
    reveal_strlit("bbtop_memory_available_bytes");
    assert("bbtop_info"@.skip(4)[0] == 'p');
    assert("bbtop_laptop_power_estimate_watts"@.skip(27)[1] == 'w');
    assert("bbtop_last_collection_timestamp_seconds"@.skip(33)[0] == 'e');
    assert("bbtop_load1"@.skip(5)[1] == 'l');
    assert("bbtop_load15"@.skip(6)[0] == 'l');
    assert("bbtop_load5"@.skip(5)[1] == 'l');
    assert("bbtop_mains_online"@.skip(12)[0] == 'o');
    assert("bbtop_memory_available_bytes"@.skip(22)[1] == 'b');
}

proof fn lemma_names_d()
    ensures
        is_name("bbtop_memory_total_bytes"@),
        mark("bbtop_memory_total_bytes"@) == 0x18726f6c,
        is_name("bbtop_network_receive_bytes_total"@),
        mark("bbtop_network_receive_bytes_total"@) == 0x216f7265,
        is_name("bbtop_network_transmit_bytes_total"@),
        mark("bbtop_network_transmit_bytes_total"@) == 0x226f746e,
        is_name("bbtop_nvme_available_spare_percent"@),
        mark("bbtop_nvme_available_spare_percent"@) == 0x225f6962,
        is_name("bbtop_nvme_available_spare_threshold_percent"@),
        mark("bbtop_nvme_available_spare_threshold_percent"@) == 0x2c5f6962,
        is_name("bbtop_nvme_critical_warning"@),
        mark("bbtop_nvme_critical_warning"@) == 0x1b5f7461,
        is_name("bbtop_nvme_data_read_bytes_total"@),
        mark("bbtop_nvme_data_read_bytes_total"@) == 0x205f6165,
        is_name("bbtop_nvme_data_written_bytes_total"@),
        mark("bbtop_nvme_data_written_bytes_total"@) == 0x235f6172,
        kind_of("bbtop_memory_total_bytes"@) == "gauge"@,
        kind_of("bbtop_network_receive_bytes_total"@) == "counter"@,
        kind_of("bbtop_network_transmit_bytes_total"@) == "counter"@,
        kind_of("bbtop_nvme_available_spare_percent"@) == "gauge"@,
        kind_of("bbtop_nvme_available_spare_threshold_percent"@) == "gauge"@,
        kind_of("bbtop_nvme_critical_warning"@) == "gauge"@,
        kind_of("bbtop_nvme_data_read_bytes_total"@) == "counter"@,
        kind_of("bbtop_nvme_data_written_bytes_total"@) == "counter"@,
{
    reveal(mark);
    reveal(is_name);
    reveal_strlit("_total");
    reveal_strlit("bbtop_memory_total_bytes");
    reveal_strlit("bbtop_network_receive_bytes_total");
    reveal_strlit("bbtop_network_transmit_bytes_total");
    reveal_strlit("bbtop_nvme_available_spare_percent");
    reveal_strlit("bbtop_nvme_available_spare_threshold_percent");
    reveal_strlit("bbtop_nvme_critical_warning");
    reveal_strlit("bbtop_nvme_data_read_bytes_total");
    reveal_strlit("bbtop_nvme_data_written_bytes_total");
    assert("bbtop_memory_total_bytes"@.skip(18)[1] == 'b');
    assert("bbtop_network_receive_bytes_total"@.skip(27) =~= "_total"@);
    assert("bbtop_network_transmit_bytes_total"@.skip(28) =~= "_total"@);
    assert("bbtop_nvme_available_spare_percent"@.skip(28)[0] == 'e');
    assert("bbtop_nvme_available_spare_threshold_percent"@.skip(38)[0] == 'e');
    assert("bbtop_nvme_critical_warning"@.skip(21)[0] == 'a');
    assert("bbtop_nvme_data_read_bytes_total"@.skip(26) =~= "_total"@);
    assert("bbtop_nvme_data_written_bytes_total"@.skip(29) =~= "_total"@);
}

proof fn lemma_names_e()
    ensures
        is_name("bbtop_nvme_error_log_entries_total"@),
        mark("bbtop_nvme_error_log_entries_total"@) == 0x225f6f6c,
        is_name("bbtop_nvme_media_errors_total"@),
        mark("bbtop_nvme_media_errors_total"@) == 0x1d5f6965,
        is_name("bbtop_nvme_percentage_used"@),
        mark("bbtop_nvme_percentage_used"@) == 0x1a5f6374,
        is_name("bbtop_nvme_power_cycles_total"@),
        mark("bbtop_nvme_power_cycles_total"@) == 0x1d5f6563,
        is_name("bbtop_nvme_power_on_hours_total"@),
        mark("bbtop_nvme_power_on_hours_total"@) == 0x1f5f656f,
        is_name("bbtop_nvme_unsafe_shutdowns_total"@),
        mark("bbtop_nvme_unsafe_shutdowns_total"@) == 0x215f615f,
        is_name("bbtop_power_sensors_detected"@),
        mark("bbtop_power_sensors_detected"@) == 0x1c726e72,
        is_name("bbtop_power_watts"@),
        mark("bbtop_power_watts"@) == 0x11727400,
        kind_of("bbtop_nvme_error_log_entries_total"@) == "counter"@,
        kind_of("bbtop_nvme_media_errors_total"@) == "counter"@,
        kind_of("bbtop_nvme_percentage_used"@) == "gauge"@,
        kind_of("bbtop_nvme_power_cycles_total"@) == "counter"@,
        kind_of("bbtop_nvme_power_on_hours_total"@) == "counter"@,
        kind_of("bbtop_nvme_unsafe_shutdowns_total"@) == "counter"@,
        kind_of("bbtop_power_sensors_detected"@) == "gauge"@,
        kind_of("bbtop_power_watts"@) == "gauge"@,
{
    reveal(mark);
    reveal(is_name);
    reveal_strlit("_total");
    reveal_strlit("bbtop_nvme_error_log_entries_total");
    reveal_strlit("bbtop_nvme_media_errors_total");
    reveal_strlit("bbtop_nvme_percentage_used");
    reveal_strlit("bbtop_nvme_power_cycles_total");
    reveal_strlit("bbtop_nvme_power_on_hours_total");
    reveal_strlit("bbtop_nvme_unsafe_shutdowns_total");
    reveal_strlit("bbtop_power_sensors_detected");
    reveal_strlit("bbtop_power_watts");
    assert("bbtop_nvme_error_log_entries_total"@.skip(28) =~= "_total"@);
    assert("bbtop_nvme_media_errors_total"@.skip(23) =~= "_total"@);
    assert("bbtop_nvme_percentage_used"@.skip(20)[0] == 'e');
    assert("bbtop_nvme_power_cycles_total"@.skip(23) =~= "_total"@);
    assert("bbtop_nvme_power_on_hours_total"@.skip(25) =~= "_total"@);
    assert("bbtop_nvme_unsafe_shutdowns_total"@.skip(27) =~= "_total"@);
    assert("bbtop_power_sensors_detected"@.skip(22)[0] == 't');
    assert("bbtop_power_watts"@.skip(11)[1] == 'w');
}

proof fn lemma_names_f()
    ensures
        is_name("bbtop_process_cpu_usage_percent"@),
        mark("bbtop_process_cpu_usage_percent"@) == 0x1f65635f,
        is_name("bbtop_process_gpu_usage_percent"@),
        mark("bbtop_process_gpu_usage_percent"@) == 0x1f65675f,
        is_name("bbtop_process_gpu_vram_bytes"@),
        mark("bbtop_process_gpu_vram_bytes"@) == 0x1c65675f,
        is_name("bbtop_process_network_receive_bytes_total"@),
        mark("bbtop_process_network_receive_bytes_total"@) == 0x29656e77,
        is_name("bbtop_process_network_transmit_bytes_total"@),
        mark("bbtop_process_network_transmit_bytes_total"@) == 0x2a656e77,
        is_name("bbtop_process_read_bytes_total"@),
        mark("bbtop_process_read_bytes_total"@) == 0x1e657264,
        is_name("bbtop_process_resident_memory_bytes"@),
        mark("bbtop_process_resident_memory_bytes"@) == 0x23657269,
        is_name("bbtop_process_state"@),
        mark("bbtop_process_state"@) == 0x13657374,
        kind_of("bbtop_process_cpu_usage_percent"@) == "gauge"@,
        kind_of("bbtop_process_gpu_usage_percent"@) == "gauge"@,
        kind_of("bbtop_process_gpu_vram_bytes"@) == "gauge"@,
        kind_of("bbtop_process_network_receive_bytes_total"@) == "counter"@,
        kind_of("bbtop_process_network_transmit_bytes_total"@) == "counter"@,
        kind_of("bbtop_process_read_bytes_total"@) == "counter"@,
        kind_of("bbtop_process_resident_memory_bytes"@) == "gauge"@,
        kind_of("bbtop_process_state"@) == "gauge"@,
{
    reveal(mark);
    reveal(is_name);
    reveal_strlit("_total");
    reveal_strlit("bbtop_process_cpu_usage_percent");
    reveal_strlit("bbtop_process_gpu_usage_percent");
    reveal_strlit("bbtop_process_gpu_vram_bytes");
    reveal_strlit("bbtop_process_network_receive_bytes_total");
    reveal_strlit("bbtop_process_network_transmit_bytes_total");
    reveal_strlit("bbtop_process_read_bytes_total");
    reveal_strlit("bbtop_process_resident_memory_bytes");
    reveal_strlit("bbtop_process_state");
    assert("bbtop_process_cpu_usage_percent"@.skip(25)[0] == 'e');
    assert("bbtop_process_gpu_usage_percent"@.skip(25)[0] == 'e');
    assert("bbtop_process_gpu_vram_bytes"@.skip(22)[1] == 'b');
    assert("bbtop_process_network_receive_bytes_total"@.skip(35) =~= "_total"@);
    assert("bbtop_process_network_transmit_bytes_total"@.skip(36) =~= "_total"@);
    assert("bbtop_process_read_bytes_total"@.skip(24) =~= "_total"@);
    assert("bbtop_process_resident_memory_bytes"@.skip(29)[1] == 'b');
    assert("bbtop_process_state"@.skip(13)[1] == 's');
}

proof fn lemma_names_g()
    ensures
        is_name("bbtop_process_threads"@),
        mark("bbtop_process_threads"@) == 0x15657465,
        is_name("bbtop_process_virtual_memory_bytes"@),
        mark("bbtop_process_virtual_memory_bytes"@) == 0x22657674,
        is_name("bbtop_process_write_bytes_total"@),
        mark("bbtop_process_write_bytes_total"@) == 0x1f657774,
        is_name("bbtop_processes"@),
        mark("bbtop_processes"@) == 0xf657300,
        is_name("bbtop_processes_running"@),
        mark("bbtop_processes_running"@) == 0x17657375,
        is_name("bbtop_swap_free_bytes"@),
        mark("bbtop_swap_free_bytes"@) == 0x155f6579,
        is_name("bbtop_swap_total_bytes"@),
        mark("bbtop_swap_total_bytes"@) == 0x165f6162,
        is_name("bbtop_temperature_alarm"@),
        mark("bbtop_temperature_alarm"@) == 0x1765755f,
        kind_of("bbtop_process_threads"@) == "gauge"@,
        kind_of("bbtop_process_virtual_memory_bytes"@) == "gauge"@,
        kind_of("bbtop_process_write_bytes_total"@) == "counter"@,
        kind_of("bbtop_processes"@) == "gauge"@,
        kind_of("bbtop_processes_running"@) == "gauge"@,
        kind_of("bbtop_swap_free_bytes"@) == "gauge"@,
        kind_of("bbtop_swap_total_bytes"@) == "gauge"@,
        kind_of("bbtop_temperature_alarm"@) == "gauge"@,
{
    reveal(mark);
    reveal(is_name);
    reveal_strlit("_total");
    reveal_strlit("bbtop_process_threads");
    reveal_strlit("bbtop_process_virtual_memory_bytes");
    reveal_strlit("bbtop_process_write_bytes_total");
    reveal_strlit("bbtop_processes");
    reveal_strlit("bbtop_processes_running");
    reveal_strlit("bbtop_swap_free_bytes");
    reveal_strlit("bbtop_swap_total_bytes");
    reveal_strlit("bbtop_temperature_alarm");
    assert("bbtop_process_threads"@.skip(15)[0] == 'h');
    assert("bbtop_process_virtual_memory_bytes"@.skip(28)[1] == 'b');
    assert("bbtop_process_write_bytes_total"@.skip(25) =~= "_total"@);
    assert("bbtop_processes"@.skip(9)[0] == 'c');
    assert("bbtop_processes_running"@.skip(17)[0] == 'u');
    assert("bbtop_swap_free_bytes"@.skip(15)[1] == 'b');
    assert("bbtop_swap_total_bytes"@.skip(16)[1] == 'b');
    assert("bbtop_temperature_alarm"@.skip(17)[1] == 'a');
}

proof fn lemma_names_h()
    ensures
        is_name("bbtop_temperature_celsius"@),
        mark("bbtop_temperature_celsius"@) == 0x1965755f,
        is_name("bbtop_temperature_limit_celsius"@),
        mark("bbtop_temperature_limit_celsius"@) == 0x1f65755f,
        is_name("bbtop_temperatures_detected"@),
        mark("bbtop_temperatures_detected"@) == 0x1b657573,
        is_name("bbtop_uptime_seconds"@),
        mark("bbtop_uptime_seconds"@) == 0x146d656e,
        is_name("bbtop_voltage_volts"@),
        mark("bbtop_voltage_volts"@) == 0x13617674,
        kind_of("bbtop_temperature_celsius"@) == "gauge"@,
        kind_of("bbtop_temperature_limit_celsius"@) == "gauge"@,
        kind_of("bbtop_temperatures_detected"@) == "gauge"@,
        kind_of("bbtop_uptime_seconds"@) == "gauge"@,
        kind_of("bbtop_voltage_volts"@) == "gauge"@,
{
    reveal(mark);
    reveal(is_name);
    reveal_strlit("_total");
    reveal_strlit("bbtop_temperature_celsius");
    reveal_strlit("bbtop_temperature_limit_celsius");
    reveal_strlit("bbtop_temperatures_detected");
    reveal_strlit("bbtop_uptime_seconds");
    reveal_strlit("bbtop_voltage_volts");
    assert("bbtop_temperature_celsius"@.skip(19)[0] == 'e');
    assert("bbtop_temperature_limit_celsius"@.skip(25)[0] == 'e');
    assert("bbtop_temperatures_detected"@.skip(21)[0] == 't');
    assert("bbtop_uptime_seconds"@.skip(14)[0] == 'e');
    assert("bbtop_voltage_volts"@.skip(13)[1] == 'v');
}

proof fn lemma_names()
    ensures
        is_name("bbtop_battery_charge_percent"@),
        mark("bbtop_battery_charge_percent"@) == 0x1c656372,
        is_name("bbtop_battery_power_watts"@),
        mark("bbtop_battery_power_watts"@) == 0x19657065,
        is_name("bbtop_cpu_frequency_hertz"@),
        mark("bbtop_cpu_frequency_hertz"@) == 0x19667563,
        is_name("bbtop_cpu_logical_count"@),
        mark("bbtop_cpu_logical_count"@) == 0x176c635f,
        is_name("bbtop_cpu_usage_percent"@),
        mark("bbtop_cpu_usage_percent"@) == 0x17756565,
        is_name("bbtop_current_amperes"@),
        mark("bbtop_current_amperes"@) == 0x15656165,
        is_name("bbtop_disk_read_bytes_total"@),
        mark("bbtop_disk_read_bytes_total"@) == 0x1b5f6479,
        is_name("bbtop_disk_write_bytes_total"@),
        mark("bbtop_disk_write_bytes_total"@) == 0x1c5f7462,
        is_name("bbtop_fan_speed_rpm"@),
        mark("bbtop_fan_speed_rpm"@) == 0x13736470,
        is_name("bbtop_fans_detected"@),
        mark("bbtop_fans_detected"@) == 0x135f6565,
        is_name("bbtop_filesystem_available_bytes"@),
        mark("bbtop_filesystem_available_bytes"@) == 0x20736561,
        is_name("bbtop_filesystem_size_bytes"@),
        mark("bbtop_filesystem_size_bytes"@) == 0x1b736573,
        is_name("bbtop_filesystem_used_bytes"@),
        mark("bbtop_filesystem_used_bytes"@) == 0x1b736575,
        is_name("bbtop_gpu_busy_percent"@),
        mark("bbtop_gpu_busy_percent"@) == 0x16625f72,
        is_name("bbtop_gpu_vram_total_bytes"@),
        mark("bbtop_gpu_vram_total_bytes"@) == 0x1a765f74,
        is_name("bbtop_gpu_vram_used_bytes"@),
        mark("bbtop_gpu_vram_used_bytes"@) == 0x19765f65,
        is_name("bbtop_info"@),
        mark("bbtop_info"@) == 0xa000000,
        is_name("bbtop_laptop_power_estimate_watts"@),
        mark("bbtop_laptop_power_estimate_watts"@) == 0x216f6f72,
        is_name("bbtop_last_collection_timestamp_seconds"@),
        mark("bbtop_last_collection_timestamp_seconds"@) == 0x275f6c74,
        is_name("bbtop_load1"@),
        mark("bbtop_load1"@) == 0xb310000,
        is_name("bbtop_load15"@),
        mark("bbtop_load15"@) == 0xc310000,
        is_name("bbtop_load5"@),
        mark("bbtop_load5"@) == 0xb350000,
        is_name("bbtop_mains_online"@),
        mark("bbtop_mains_online"@) == 0x12736c65,
        is_name("bbtop_memory_available_bytes"@),
        mark("bbtop_memory_available_bytes"@) == 0x1c72766c,
        is_name("bbtop_memory_total_bytes"@),
        mark("bbtop_memory_total_bytes"@) == 0x18726f6c,
        is_name("bbtop_network_receive_bytes_total"@),
        mark("bbtop_network_receive_bytes_total"@) == 0x216f7265,
        is_name("bbtop_network_transmit_bytes_total"@),
        mark("bbtop_network_transmit_bytes_total"@) == 0x226f746e,
        is_name("bbtop_nvme_available_spare_percent"@),
        mark("bbtop_nvme_available_spare_percent"@) == 0x225f6962,
        is_name("bbtop_nvme_available_spare_threshold_percent"@),
        mark("bbtop_nvme_available_spare_threshold_percent"@) == 0x2c5f6962,
        is_name("bbtop_nvme_critical_warning"@),
        mark("bbtop_nvme_critical_warning"@) == 0x1b5f7461,
        is_name("bbtop_nvme_data_read_bytes_total"@),
        mark("bbtop_nvme_data_read_bytes_total"@) == 0x205f6165,
        is_name("bbtop_nvme_data_written_bytes_total"@),
        mark("bbtop_nvme_data_written_bytes_total"@) == 0x235f6172,
        is_name("bbtop_nvme_error_log_entries_total"@),
        mark("bbtop_nvme_error_log_entries_total"@) == 0x225f6f6c,
        is_name("bbtop_nvme_media_errors_total"@),
        mark("bbtop_nvme_media_errors_total"@) == 0x1d5f6965,
        is_name("bbtop_nvme_percentage_used"@),
        mark("bbtop_nvme_percentage_used"@) == 0x1a5f6374,
        is_name("bbtop_nvme_power_cycles_total"@),
        mark("bbtop_nvme_power_cycles_total"@) == 0x1d5f6563,
        is_name("bbtop_nvme_power_on_hours_total"@),
        mark("bbtop_nvme_power_on_hours_total"@) == 0x1f5f656f,
        is_name("bbtop_nvme_unsafe_shutdowns_total"@),
        mark("bbtop_nvme_unsafe_shutdowns_total"@) == 0x215f615f,
        is_name("bbtop_power_sensors_detected"@),
        mark("bbtop_power_sensors_detected"@) == 0x1c726e72,
        is_name("bbtop_power_watts"@),
        mark("bbtop_power_watts"@) == 0x11727400,
        is_name("bbtop_process_cpu_usage_percent"@),
        mark("bbtop_process_cpu_usage_percent"@) == 0x1f65635f,
        is_name("bbtop_process_gpu_usage_percent"@),
        mark("bbtop_process_gpu_usage_percent"@) == 0x1f65675f,
        is_name("bbtop_process_gpu_vram_bytes"@),
        mark("bbtop_process_gpu_vram_bytes"@) == 0x1c65675f,
        is_name("bbtop_process_network_receive_bytes_total"@),
        mark("bbtop_process_network_receive_bytes_total"@) == 0x29656e77,
        is_name("bbtop_process_network_transmit_bytes_total"@),
        mark("bbtop_process_network_transmit_bytes_total"@) == 0x2a656e77,
        is_name("bbtop_process_read_bytes_total"@),
        mark("bbtop_process_read_bytes_total"@) == 0x1e657264,
        is_name("bbtop_process_resident_memory_bytes"@),
        mark("bbtop_process_resident_memory_bytes"@) == 0x23657269,
        is_name("bbtop_process_state"@),
        mark("bbtop_process_state"@) == 0x13657374,
        is_name("bbtop_process_threads"@),
        mark("bbtop_process_threads"@) == 0x15657465,
        is_name("bbtop_process_virtual_memory_bytes"@),
        mark("bbtop_process_virtual_memory_bytes"@) == 0x22657674,
        is_name("bbtop_process_write_bytes_total"@),
        mark("bbtop_process_write_bytes_total"@) == 0x1f657774,
        is_name("bbtop_processes"@),
        mark("bbtop_processes"@) == 0xf657300,
        is_name("bbtop_processes_running"@),
        mark("bbtop_processes_running"@) == 0x17657375,
        is_name("bbtop_swap_free_bytes"@),
        mark("bbtop_swap_free_bytes"@) == 0x155f6579,
        is_name("bbtop_swap_total_bytes"@),
        mark("bbtop_swap_total_bytes"@) == 0x165f6162,
        is_name("bbtop_temperature_alarm"@),
        mark("bbtop_temperature_alarm"@) == 0x1765755f,
        is_name("bbtop_temperature_celsius"@),
        mark("bbtop_temperature_celsius"@) == 0x1965755f,
        is_name("bbtop_temperature_limit_celsius"@),
        mark("bbtop_temperature_limit_celsius"@) == 0x1f65755f,
        is_name("bbtop_temperatures_detected"@),
        mark("bbtop_temperatures_detected"@) == 0x1b657573,
        is_name("bbtop_uptime_seconds"@),
        mark("bbtop_uptime_seconds"@) == 0x146d656e,
        is_name("bbtop_voltage_volts"@),
        mark("bbtop_voltage_volts"@) == 0x13617674,
{
    lemma_names_a();
    lemma_names_b();
    lemma_names_c();
    lemma_names_d();
    lemma_names_e();
    lemma_names_f();
    lemma_names_g();
    lemma_names_h();
}

proof fn lemma_kinds()
    ensures
        kind_of("bbtop_battery_charge_percent"@) == "gauge"@,
        kind_of("bbtop_battery_power_watts"@) == "gauge"@,
        kind_of("bbtop_cpu_frequency_hertz"@) == "gauge"@,
        kind_of("bbtop_cpu_logical_count"@) == "gauge"@,
        kind_of("bbtop_cpu_usage_percent"@) == "gauge"@,
        kind_of("bbtop_current_amperes"@) == "gauge"@,
        kind_of("bbtop_disk_read_bytes_total"@) == "counter"@,
        kind_of("bbtop_disk_write_bytes_total"@) == "counter"@,
        kind_of("bbtop_fan_speed_rpm"@) == "gauge"@,
        kind_of("bbtop_fans_detected"@) == "gauge"@,
        kind_of("bbtop_filesystem_available_bytes"@) == "gauge"@,
        kind_of("bbtop_filesystem_size_bytes"@) == "gauge"@,
        kind_of("bbtop_filesystem_used_bytes"@) == "gauge"@,
        kind_of("bbtop_gpu_busy_percent"@) == "gauge"@,
        kind_of("bbtop_gpu_vram_total_bytes"@) == "gauge"@,
        kind_of("bbtop_gpu_vram_used_bytes"@) == "gauge"@,
        kind_of("bbtop_info"@) == "gauge"@,
        kind_of("bbtop_laptop_power_estimate_watts"@) == "gauge"@,
        kind_of("bbtop_last_collection_timestamp_seconds"@) == "gauge"@,
        kind_of("bbtop_load1"@) == "gauge"@,
        kind_of("bbtop_load15"@) == "gauge"@,
        kind_of("bbtop_load5"@) == "gauge"@,
        kind_of("bbtop_mains_online"@) == "gauge"@,
        kind_of("bbtop_memory_available_bytes"@) == "gauge"@,
        kind_of("bbtop_memory_total_bytes"@) == "gauge"@,
        kind_of("bbtop_network_receive_bytes_total"@) == "counter"@,
        kind_of("bbtop_network_transmit_bytes_total"@) == "counter"@,
        kind_of("bbtop_nvme_available_spare_percent"@) == "gauge"@,
        kind_of("bbtop_nvme_available_spare_threshold_percent"@) == "gauge"@,
        kind_of("bbtop_nvme_critical_warning"@) == "gauge"@,
        kind_of("bbtop_nvme_data_read_bytes_total"@) == "counter"@,
        kind_of("bbtop_nvme_data_written_bytes_total"@) == "counter"@,
        kind_of("bbtop_nvme_error_log_entries_total"@) == "counter"@,
        kind_of("bbtop_nvme_media_errors_total"@) == "counter"@,
        kind_of("bbtop_nvme_percentage_used"@) == "gauge"@,
        kind_of("bbtop_nvme_power_cycles_total"@) == "counter"@,
        kind_of("bbtop_nvme_power_on_hours_total"@) == "counter"@,
        kind_of("bbtop_nvme_unsafe_shutdowns_total"@) == "counter"@,
        kind_of("bbtop_power_sensors_detected"@) == "gauge"@,
        kind_of("bbtop_power_watts"@) == "gauge"@,
        kind_of("bbtop_process_cpu_usage_percent"@) == "gauge"@,
        kind_of("bbtop_process_gpu_usage_percent"@) == "gauge"@,
        kind_of("bbtop_process_gpu_vram_bytes"@) == "gauge"@,
        kind_of("bbtop_process_network_receive_bytes_total"@) == "counter"@,
        kind_of("bbtop_process_network_transmit_bytes_total"@) == "counter"@,
        kind_of("bbtop_process_read_bytes_total"@) == "counter"@,
        kind_of("bbtop_process_resident_memory_bytes"@) == "gauge"@,
        kind_of("bbtop_process_state"@) == "gauge"@,
        kind_of("bbtop_process_threads"@) == "gauge"@,
        kind_of("bbtop_process_virtual_memory_bytes"@) == "gauge"@,
        kind_of("bbtop_process_write_bytes_total"@) == "counter"@,
        kind_of("bbtop_processes"@) == "gauge"@,
        kind_of("bbtop_processes_running"@) == "gauge"@,
        kind_of("bbtop_swap_free_bytes"@) == "gauge"@,
        kind_of("bbtop_swap_total_bytes"@) == "gauge"@,
        kind_of("bbtop_temperature_alarm"@) == "gauge"@,
        kind_of("bbtop_temperature_celsius"@) == "gauge"@,
        kind_of("bbtop_temperature_limit_celsius"@) == "gauge"@,
        kind_of("bbtop_temperatures_detected"@) == "gauge"@,
        kind_of("bbtop_uptime_seconds"@) == "gauge"@,
        kind_of("bbtop_voltage_volts"@) == "gauge"@,
{
    lemma_names_a();
    lemma_names_b();
    lemma_names_c();
    lemma_names_d();
    lemma_names_e();
    lemma_names_f();
    lemma_names_g();
    lemma_names_h();
}

proof fn lemma_keys()
    ensures
        is_name("interface"@),
        is_name("kind"@),
        is_name("chip"@),
        is_name("sensor"@),
        is_name("reading"@),
        is_name("battery"@),
        is_name("status"@),
        is_name("limit"@),
        is_name("cpu"@),
        is_name("supply"@),
        is_name("device"@),
        is_name("card"@),
        is_name("driver"@),
        is_name("mountpoint"@),
        is_name("fstype"@),
        is_name("pid"@),
        is_name("name"@),
        is_name("state"@),
        is_name("hostname"@),
        is_name("source"@),
        is_name("counter"@),
        is_name("gauge"@),
{
    reveal(is_name);
    reveal_strlit("interface");
    reveal_strlit("kind");
    reveal_strlit("chip");
    reveal_strlit("sensor");
    reveal_strlit("reading");
    reveal_strlit("battery");
    reveal_strlit("status");
    reveal_strlit("limit");
    reveal_strlit("cpu");
    reveal_strlit("supply");
    reveal_strlit("device");
    reveal_strlit("card");
    reveal_strlit("driver");
    reveal_strlit("mountpoint");
    reveal_strlit("fstype");
    reveal_strlit("pid");
    reveal_strlit("name");
    reveal_strlit("state");
    reveal_strlit("hostname");
    reveal_strlit("source");
    reveal_strlit("counter");
    reveal_strlit("gauge");
}

proof fn lemma_helps()
    ensures
        one_line("Fan speed reported by Linux hwmon"@)
            && "Fan speed reported by Linux hwmon"@.len() > 0,
        one_line("Temperature reported by Linux hwmon"@)
            && "Temperature reported by Linux hwmon"@.len() > 0,
        one_line("Power reported by Linux hwmon in watts"@)
            && "Power reported by Linux hwmon in watts"@.len() > 0,
        one_line("Electrical power flowing through the battery"@)
            && "Electrical power flowing through the battery"@.len() > 0,
        one_line("Estimated whole-laptop draw while discharging"@)
            && "Estimated whole-laptop draw while discharging"@.len() > 0,
        one_line("Battery state of charge in percent"@)
            && "Battery state of charge in percent"@.len() > 0,
        one_line("Voltage reported by Linux hwmon"@)
            && "Voltage reported by Linux hwmon"@.len() > 0,
        one_line("Current reported by Linux hwmon"@)
            && "Current reported by Linux hwmon"@.len() > 0,
        one_line("Temperature limits reported by Linux hwmon"@)
            && "Temperature limits reported by Linux hwmon"@.len() > 0,
        one_line("Temperature alarm state reported by Linux hwmon"@)
            && "Temperature alarm state reported by Linux hwmon"@.len() > 0,
        one_line("Current CPU frequency by logical CPU"@)
            && "Current CPU frequency by logical CPU"@.len() > 0,
        one_line("Whether an external power supply is online"@)
            && "Whether an external power supply is online"@.len() > 0,
        one_line("Host identity"@) && "Host identity"@.len() > 0,
{
    reveal_strlit("Fan speed reported by Linux hwmon");
    reveal_strlit("Temperature reported by Linux hwmon");
    reveal_strlit("Power reported by Linux hwmon in watts");
    reveal_strlit("Electrical power flowing through the battery");
    reveal_strlit("Estimated whole-laptop draw while discharging");
    reveal_strlit("Battery state of charge in percent");
    reveal_strlit("Voltage reported by Linux hwmon");
    reveal_strlit("Current reported by Linux hwmon");
    reveal_strlit("Temperature limits reported by Linux hwmon");
    reveal_strlit("Temperature alarm state reported by Linux hwmon");
    reveal_strlit("Current CPU frequency by logical CPU");
    reveal_strlit("Whether an external power supply is online");
    reveal_strlit("Host identity");
}

spec fn network_sample(item: NetworkInterfaceView, name: Seq<char>) -> Option<Sampled> {
    let labels = seq![("interface"@, item.name), ("kind"@, item.kind)];
    if name == "bbtop_network_receive_bytes_total"@ {
        Some(Sampled { labels, value: decimal(item.receive_bytes as nat) })
    } else if name == "bbtop_network_transmit_bytes_total"@ {
        Some(Sampled { labels, value: decimal(item.transmit_bytes as nat) })
    } else {
        None
    }
}

proof fn lemma_network_lines(item: NetworkInterfaceView, name: Seq<char>)
    requires
        unescapable(item.kind),
    ensures
        complete(network_lines_of(item)),
        samples(network_lines_of(item), name) == one(network_sample(item, name)),
        kinds(network_lines_of(item), name) == Seq::<Seq<char>>::empty(),
{
    lemma_names();
    lemma_keys();
    lemma_bare_label("kind"@, item.kind);
    lemma_two_labels("interface"@, item.name, "kind"@, item.kind);
    let pairs = seq![("interface"@, item.name), ("kind"@, item.kind)];
    assert(all_named(pairs));
    let labels = label_list(pairs);
    lemma_decimal_unbroken(item.receive_bytes as nat);
    lemma_sample("bbtop_network_receive_bytes_total"@, pairs, decimal(item.receive_bytes as nat),
        name);
    lemma_decimal_unbroken(item.transmit_bytes as nat);
    lemma_sample("bbtop_network_transmit_bytes_total"@, pairs, decimal(item.transmit_bytes as nat),
        name);
    let t0 = sample_of("bbtop_network_receive_bytes_total"@, labels,
        decimal(item.receive_bytes as nat));
    let t1 = t0 + sample_of("bbtop_network_transmit_bytes_total"@, labels,
        decimal(item.transmit_bytes as nat));
    law_readings_of_both(t0, sample_of("bbtop_network_transmit_bytes_total"@, labels,
        decimal(item.transmit_bytes as nat)), name);
    assert(network_lines_of(item) =~= t1);
    assert(samples(t1, name) =~= one(network_sample(item, name)));
    assert(kinds(t1, name) =~= Seq::<Seq<char>>::empty());
}

proof fn lemma_networks(items: Seq<NetworkInterfaceView>, name: Seq<char>)
    requires
        forall|i: int| 0 <= i < items.len() ==> {
            let item = #[trigger] items[i];
            unescapable(item.kind)
        },
    ensures
        complete(networks_of(items)),
        samples(networks_of(items), name) == kept(items,
            |item: NetworkInterfaceView| network_sample(item, name)),
        !(name == "bbtop_network_receive_bytes_total"@ || name
            == "bbtop_network_transmit_bytes_total"@) ==> samples(networks_of(items), name)
            == Seq::<Sampled>::empty(),
        kinds(networks_of(items), name) == (if name == "bbtop_network_receive_bytes_total"@ || name
            == "bbtop_network_transmit_bytes_total"@ {
            seq![kind_of(name)]
        } else {
            Seq::empty()
        }),
{
    reveal(networks_of);
    lemma_names();
    lemma_kinds();
    lemma_keys();
    lemma_helps();
    lemma_type("bbtop_network_receive_bytes_total"@, "counter"@, name);
    lemma_type("bbtop_network_transmit_bytes_total"@, "counter"@, name);
    let lines = |item: NetworkInterfaceView| network_lines_of(item);
    let read = |item: NetworkInterfaceView| network_sample(item, name);
    assert forall|i: int| 0 <= i < items.len() implies {
        &&& complete(lines(#[trigger] items[i]))
        &&& samples(lines(items[i]), name) == one(read(items[i]))
        &&& kinds(lines(items[i]), name) == Seq::<Seq<char>>::empty()
    } by {
        lemma_network_lines(items[i], name);
    }
    lemma_joined(items, lines, read, name);
    let rows = joined(items.map_values(lines));
    if !(name == "bbtop_network_receive_bytes_total"@ || name
        == "bbtop_network_transmit_bytes_total"@) {
        lemma_kept_empty(items, read);
    }
    let t0 = type_of("bbtop_network_receive_bytes_total"@, "counter"@);
    let t1 = t0 + type_of("bbtop_network_transmit_bytes_total"@, "counter"@);
    law_readings_of_both(t0, type_of("bbtop_network_transmit_bytes_total"@, "counter"@), name);
    let t2 = t1 + rows;
    law_readings_of_both(t1, rows, name);
    assert(networks_of(items) =~= t2);
    assert(samples(t2, name) =~= kept(items, read));
    assert(kinds(t2, name) =~= (if name == "bbtop_network_receive_bytes_total"@ || name
        == "bbtop_network_transmit_bytes_total"@ {
            seq![kind_of(name)]
        } else {
            Seq::empty()
        }));
}

spec fn fan_sample(item: FanView, name: Seq<char>) -> Option<Sampled> {
    let labels = seq![("chip"@, item.chip), ("sensor"@, item.sensor)];
    if name == "bbtop_fan_speed_rpm"@ {
        Some(Sampled { labels, value: decimal(item.rpm as nat) })
    } else {
        None
    }
}

proof fn lemma_fan_lines(item: FanView, name: Seq<char>)
    ensures
        complete(fan_line_of(item)),
        samples(fan_line_of(item), name) == one(fan_sample(item, name)),
        kinds(fan_line_of(item), name) == Seq::<Seq<char>>::empty(),
{
    lemma_names();
    lemma_keys();
    lemma_two_labels("chip"@, item.chip, "sensor"@, item.sensor);
    let pairs = seq![("chip"@, item.chip), ("sensor"@, item.sensor)];
    assert(all_named(pairs));
    let labels = label_list(pairs);
    lemma_decimal_unbroken(item.rpm as nat);
    lemma_sample("bbtop_fan_speed_rpm"@, pairs, decimal(item.rpm as nat), name);
    let t0 = sample_of("bbtop_fan_speed_rpm"@, labels, decimal(item.rpm as nat));
    assert(fan_line_of(item) =~= t0);
    assert(samples(t0, name) =~= one(fan_sample(item, name)));
    assert(kinds(t0, name) =~= Seq::<Seq<char>>::empty());
}

proof fn lemma_fans(items: Seq<FanView>, name: Seq<char>)
    ensures
        complete(fans_of(items)),
        samples(fans_of(items), name) == kept(items, |item: FanView| fan_sample(item, name)),
        !(name == "bbtop_fan_speed_rpm"@) ==> samples(fans_of(items), name)
            == Seq::<Sampled>::empty(),
        kinds(fans_of(items), name) == (if name == "bbtop_fan_speed_rpm"@ {
            seq![kind_of(name)]
        } else {
            Seq::empty()
        }),
{
    reveal(fans_of);
    lemma_names();
    lemma_kinds();
    lemma_keys();
    lemma_helps();
    lemma_gauge("bbtop_fan_speed_rpm"@, "Fan speed reported by Linux hwmon"@, name);
    let lines = |item: FanView| fan_line_of(item);
    let read = |item: FanView| fan_sample(item, name);
    assert forall|i: int| 0 <= i < items.len() implies {
        &&& complete(lines(#[trigger] items[i]))
        &&& samples(lines(items[i]), name) == one(read(items[i]))
        &&& kinds(lines(items[i]), name) == Seq::<Seq<char>>::empty()
    } by {
        lemma_fan_lines(items[i], name);
    }
    lemma_joined(items, lines, read, name);
    let rows = joined(items.map_values(lines));
    if !(name == "bbtop_fan_speed_rpm"@) {
        lemma_kept_empty(items, read);
    }
    let t0 = gauge_of("bbtop_fan_speed_rpm"@, "Fan speed reported by Linux hwmon"@);
    let t1 = t0 + rows;
    law_readings_of_both(t0, rows, name);
    assert(fans_of(items) =~= t1);
    assert(samples(t1, name) =~= kept(items, read));
    assert(kinds(t1, name) =~= (if name == "bbtop_fan_speed_rpm"@ {
            seq![kind_of(name)]
        } else {
            Seq::empty()
        }));
}

spec fn temperature_sample(item: TemperatureView, name: Seq<char>) -> Option<Sampled> {
    let labels = seq![("chip"@, item.chip), ("sensor"@, item.sensor)];
    if name == "bbtop_temperature_celsius"@ {
        Some(Sampled { labels, value: item.celsius.thousandths })
    } else {
        None
    }
}

proof fn lemma_temperature_lines(item: TemperatureView, name: Seq<char>)
    requires
        unbroken(item.celsius.thousandths),
    ensures
        complete(temperature_line_of(item)),
        samples(temperature_line_of(item), name) == one(temperature_sample(item, name)),
        kinds(temperature_line_of(item), name) == Seq::<Seq<char>>::empty(),
{
    lemma_names();
    lemma_keys();
    lemma_two_labels("chip"@, item.chip, "sensor"@, item.sensor);
    let pairs = seq![("chip"@, item.chip), ("sensor"@, item.sensor)];
    assert(all_named(pairs));
    let labels = label_list(pairs);
    lemma_sample("bbtop_temperature_celsius"@, pairs, item.celsius.thousandths, name);
    let t0 = sample_of("bbtop_temperature_celsius"@, labels, item.celsius.thousandths);
    assert(temperature_line_of(item) =~= t0);
    assert(samples(t0, name) =~= one(temperature_sample(item, name)));
    assert(kinds(t0, name) =~= Seq::<Seq<char>>::empty());
}

proof fn lemma_temperatures(items: Seq<TemperatureView>, name: Seq<char>)
    requires
        forall|i: int| 0 <= i < items.len() ==> {
            let item = #[trigger] items[i];
            unbroken(item.celsius.thousandths)
        },
    ensures
        complete(temperatures_of(items)),
        samples(temperatures_of(items), name)
            == kept(items, |item: TemperatureView| temperature_sample(item, name)),
        !(name == "bbtop_temperature_celsius"@) ==> samples(temperatures_of(items), name)
            == Seq::<Sampled>::empty(),
        kinds(temperatures_of(items), name) == (if name == "bbtop_temperature_celsius"@ {
            seq![kind_of(name)]
        } else {
            Seq::empty()
        }),
{
    reveal(temperatures_of);
    lemma_names();
    lemma_kinds();
    lemma_keys();
    lemma_helps();
    lemma_gauge("bbtop_temperature_celsius"@, "Temperature reported by Linux hwmon"@, name);
    let lines = |item: TemperatureView| temperature_line_of(item);
    let read = |item: TemperatureView| temperature_sample(item, name);
    assert forall|i: int| 0 <= i < items.len() implies {
        &&& complete(lines(#[trigger] items[i]))
        &&& samples(lines(items[i]), name) == one(read(items[i]))
        &&& kinds(lines(items[i]), name) == Seq::<Seq<char>>::empty()
    } by {
        lemma_temperature_lines(items[i], name);
    }
    lemma_joined(items, lines, read, name);
    let rows = joined(items.map_values(lines));
    if !(name == "bbtop_temperature_celsius"@) {
        lemma_kept_empty(items, read);
    }
    let t0 = gauge_of("bbtop_temperature_celsius"@, "Temperature reported by Linux hwmon"@);
    let t1 = t0 + rows;
    law_readings_of_both(t0, rows, name);
    assert(temperatures_of(items) =~= t1);
    assert(samples(t1, name) =~= kept(items, read));
    assert(kinds(t1, name) =~= (if name == "bbtop_temperature_celsius"@ {
            seq![kind_of(name)]
        } else {
            Seq::empty()
        }));
}

spec fn power_sample(item: PowerView, name: Seq<char>) -> Option<Sampled> {
    let labels = seq![("chip"@, item.chip), ("sensor"@, item.sensor), ("reading"@, item.reading)];
    if name == "bbtop_power_watts"@ {
        Some(Sampled { labels, value: item.watts.millionths })
    } else {
        None
    }
}

proof fn lemma_power_lines(item: PowerView, name: Seq<char>)
    requires
        unbroken(item.watts.millionths),
    ensures
        complete(power_line_of(item)),
        samples(power_line_of(item), name) == one(power_sample(item, name)),
        kinds(power_line_of(item), name) == Seq::<Seq<char>>::empty(),
{
    lemma_names();
    lemma_keys();
    lemma_three_labels(("chip"@, item.chip), ("sensor"@, item.sensor), ("reading"@, item.reading));
    let pairs = seq![("chip"@, item.chip), ("sensor"@, item.sensor), ("reading"@, item.reading)];
    assert(all_named(pairs));
    let labels = label_list(pairs);
    lemma_sample("bbtop_power_watts"@, pairs, item.watts.millionths, name);
    let t0 = sample_of("bbtop_power_watts"@, labels, item.watts.millionths);
    assert(power_line_of(item) =~= t0);
    assert(samples(t0, name) =~= one(power_sample(item, name)));
    assert(kinds(t0, name) =~= Seq::<Seq<char>>::empty());
}

proof fn lemma_powers(items: Seq<PowerView>, name: Seq<char>)
    requires
        forall|i: int| 0 <= i < items.len() ==> {
            let item = #[trigger] items[i];
            unbroken(item.watts.millionths)
        },
    ensures
        complete(powers_of(items)),
        samples(powers_of(items), name) == kept(items, |item: PowerView| power_sample(item, name)),
        !(name == "bbtop_power_watts"@) ==> samples(powers_of(items), name)
            == Seq::<Sampled>::empty(),
        kinds(powers_of(items), name) == (if name == "bbtop_power_watts"@ {
            seq![kind_of(name)]
        } else {
            Seq::empty()
        }),
{
    reveal(powers_of);
    lemma_names();
    lemma_kinds();
    lemma_keys();
    lemma_helps();
    lemma_gauge("bbtop_power_watts"@, "Power reported by Linux hwmon in watts"@, name);
    let lines = |item: PowerView| power_line_of(item);
    let read = |item: PowerView| power_sample(item, name);
    assert forall|i: int| 0 <= i < items.len() implies {
        &&& complete(lines(#[trigger] items[i]))
        &&& samples(lines(items[i]), name) == one(read(items[i]))
        &&& kinds(lines(items[i]), name) == Seq::<Seq<char>>::empty()
    } by {
        lemma_power_lines(items[i], name);
    }
    lemma_joined(items, lines, read, name);
    let rows = joined(items.map_values(lines));
    if !(name == "bbtop_power_watts"@) {
        lemma_kept_empty(items, read);
    }
    let t0 = gauge_of("bbtop_power_watts"@, "Power reported by Linux hwmon in watts"@);
    let t1 = t0 + rows;
    law_readings_of_both(t0, rows, name);
    assert(powers_of(items) =~= t1);
    assert(samples(t1, name) =~= kept(items, read));
    assert(kinds(t1, name) =~= (if name == "bbtop_power_watts"@ {
            seq![kind_of(name)]
        } else {
            Seq::empty()
        }));
}

spec fn limit_sample(item: TemperatureLimitView, name: Seq<char>) -> Option<Sampled> {
    let labels = seq![("chip"@, item.chip), ("sensor"@, item.sensor), ("limit"@, item.limit)];
    if name == "bbtop_temperature_limit_celsius"@ {
        Some(Sampled { labels, value: item.celsius.thousandths })
    } else {
        None
    }
}

proof fn lemma_limit_lines(item: TemperatureLimitView, name: Seq<char>)
    requires
        unbroken(item.celsius.thousandths),
    ensures
        complete(limit_line_of(item)),
        samples(limit_line_of(item), name) == one(limit_sample(item, name)),
        kinds(limit_line_of(item), name) == Seq::<Seq<char>>::empty(),
{
    lemma_names();
    lemma_keys();
    lemma_three_labels(("chip"@, item.chip), ("sensor"@, item.sensor), ("limit"@, item.limit));
    let pairs = seq![("chip"@, item.chip), ("sensor"@, item.sensor), ("limit"@, item.limit)];
    assert(all_named(pairs));
    let labels = label_list(pairs);
    lemma_sample("bbtop_temperature_limit_celsius"@, pairs, item.celsius.thousandths, name);
    let t0 = sample_of("bbtop_temperature_limit_celsius"@, labels, item.celsius.thousandths);
    assert(limit_line_of(item) =~= t0);
    assert(samples(t0, name) =~= one(limit_sample(item, name)));
    assert(kinds(t0, name) =~= Seq::<Seq<char>>::empty());
}

proof fn lemma_limits(items: Seq<TemperatureLimitView>, name: Seq<char>)
    requires
        forall|i: int| 0 <= i < items.len() ==> {
            let item = #[trigger] items[i];
            unbroken(item.celsius.thousandths)
        },
    ensures
        complete(limits_of(items)),
        samples(limits_of(items), name) == kept(items,
            |item: TemperatureLimitView| limit_sample(item, name)),
        !(name == "bbtop_temperature_limit_celsius"@) ==> samples(limits_of(items), name)
            == Seq::<Sampled>::empty(),
        kinds(limits_of(items), name) == (if name == "bbtop_temperature_limit_celsius"@ {
            seq![kind_of(name)]
        } else {
            Seq::empty()
        }),
{
    reveal(limits_of);
    lemma_names();
    lemma_kinds();
    lemma_keys();
    lemma_helps();
    lemma_gauge("bbtop_temperature_limit_celsius"@, "Temperature limits reported by Linux hwmon"@,
        name);
    let lines = |item: TemperatureLimitView| limit_line_of(item);
    let read = |item: TemperatureLimitView| limit_sample(item, name);
    assert forall|i: int| 0 <= i < items.len() implies {
        &&& complete(lines(#[trigger] items[i]))
        &&& samples(lines(items[i]), name) == one(read(items[i]))
        &&& kinds(lines(items[i]), name) == Seq::<Seq<char>>::empty()
    } by {
        lemma_limit_lines(items[i], name);
    }
    lemma_joined(items, lines, read, name);
    let rows = joined(items.map_values(lines));
    if !(name == "bbtop_temperature_limit_celsius"@) {
        lemma_kept_empty(items, read);
    }
    let t0 = gauge_of("bbtop_temperature_limit_celsius"@,
        "Temperature limits reported by Linux hwmon"@);
    let t1 = t0 + rows;
    law_readings_of_both(t0, rows, name);
    assert(limits_of(items) =~= t1);
    assert(samples(t1, name) =~= kept(items, read));
    assert(kinds(t1, name) =~= (if name == "bbtop_temperature_limit_celsius"@ {
            seq![kind_of(name)]
        } else {
            Seq::empty()
        }));
}

spec fn alarm_sample(item: TemperatureAlarmView, name: Seq<char>) -> Option<Sampled> {
    let labels = seq![("chip"@, item.chip), ("sensor"@, item.sensor)];
    if name == "bbtop_temperature_alarm"@ {
        Some(Sampled { labels, value: decimal(item.value as nat) })
    } else {
        None
    }
}

proof fn lemma_alarm_lines(item: TemperatureAlarmView, name: Seq<char>)
    ensures
        complete(alarm_line_of(item)),
        samples(alarm_line_of(item), name) == one(alarm_sample(item, name)),
        kinds(alarm_line_of(item), name) == Seq::<Seq<char>>::empty(),
{
    lemma_names();
    lemma_keys();
    lemma_two_labels("chip"@, item.chip, "sensor"@, item.sensor);
    let pairs = seq![("chip"@, item.chip), ("sensor"@, item.sensor)];
    assert(all_named(pairs));
    let labels = label_list(pairs);
    lemma_decimal_unbroken(item.value as nat);
    lemma_sample("bbtop_temperature_alarm"@, pairs, decimal(item.value as nat), name);
    let t0 = sample_of("bbtop_temperature_alarm"@, labels, decimal(item.value as nat));
    assert(alarm_line_of(item) =~= t0);
    assert(samples(t0, name) =~= one(alarm_sample(item, name)));
    assert(kinds(t0, name) =~= Seq::<Seq<char>>::empty());
}

proof fn lemma_alarms(items: Seq<TemperatureAlarmView>, name: Seq<char>)
    ensures
        complete(alarms_of(items)),
        samples(alarms_of(items), name) == kept(items,
            |item: TemperatureAlarmView| alarm_sample(item, name)),
        !(name == "bbtop_temperature_alarm"@) ==> samples(alarms_of(items), name)
            == Seq::<Sampled>::empty(),
        kinds(alarms_of(items), name) == (if name == "bbtop_temperature_alarm"@ {
            seq![kind_of(name)]
        } else {
            Seq::empty()
        }),
{
    reveal(alarms_of);
    lemma_names();
    lemma_kinds();
    lemma_keys();
    lemma_helps();
    lemma_gauge("bbtop_temperature_alarm"@, "Temperature alarm state reported by Linux hwmon"@,
        name);
    let lines = |item: TemperatureAlarmView| alarm_line_of(item);
    let read = |item: TemperatureAlarmView| alarm_sample(item, name);
    assert forall|i: int| 0 <= i < items.len() implies {
        &&& complete(lines(#[trigger] items[i]))
        &&& samples(lines(items[i]), name) == one(read(items[i]))
        &&& kinds(lines(items[i]), name) == Seq::<Seq<char>>::empty()
    } by {
        lemma_alarm_lines(items[i], name);
    }
    lemma_joined(items, lines, read, name);
    let rows = joined(items.map_values(lines));
    if !(name == "bbtop_temperature_alarm"@) {
        lemma_kept_empty(items, read);
    }
    let t0 = gauge_of("bbtop_temperature_alarm"@,
        "Temperature alarm state reported by Linux hwmon"@);
    let t1 = t0 + rows;
    law_readings_of_both(t0, rows, name);
    assert(alarms_of(items) =~= t1);
    assert(samples(t1, name) =~= kept(items, read));
    assert(kinds(t1, name) =~= (if name == "bbtop_temperature_alarm"@ {
            seq![kind_of(name)]
        } else {
            Seq::empty()
        }));
}

spec fn frequency_sample(item: CpuFrequencyView, name: Seq<char>) -> Option<Sampled> {
    let labels = seq![("cpu"@, item.cpu)];
    if name == "bbtop_cpu_frequency_hertz"@ {
        Some(Sampled { labels, value: decimal(item.hertz as nat) })
    } else {
        None
    }
}

proof fn lemma_frequency_lines(item: CpuFrequencyView, name: Seq<char>)
    ensures
        complete(frequency_line_of(item)),
        samples(frequency_line_of(item), name) == one(frequency_sample(item, name)),
        kinds(frequency_line_of(item), name) == Seq::<Seq<char>>::empty(),
{
    lemma_names();
    lemma_keys();
    lemma_one_label("cpu"@, item.cpu);
    let pairs = seq![("cpu"@, item.cpu)];
    assert(all_named(pairs));
    let labels = label_list(pairs);
    lemma_decimal_unbroken(item.hertz as nat);
    lemma_sample("bbtop_cpu_frequency_hertz"@, pairs, decimal(item.hertz as nat), name);
    let t0 = sample_of("bbtop_cpu_frequency_hertz"@, labels, decimal(item.hertz as nat));
    assert(frequency_line_of(item) =~= t0);
    assert(samples(t0, name) =~= one(frequency_sample(item, name)));
    assert(kinds(t0, name) =~= Seq::<Seq<char>>::empty());
}

proof fn lemma_frequencies(items: Seq<CpuFrequencyView>, name: Seq<char>)
    ensures
        complete(frequencies_of(items)),
        samples(frequencies_of(items), name)
            == kept(items, |item: CpuFrequencyView| frequency_sample(item, name)),
        !(name == "bbtop_cpu_frequency_hertz"@) ==> samples(frequencies_of(items), name)
            == Seq::<Sampled>::empty(),
        kinds(frequencies_of(items), name) == (if name == "bbtop_cpu_frequency_hertz"@ {
            seq![kind_of(name)]
        } else {
            Seq::empty()
        }),
{
    reveal(frequencies_of);
    lemma_names();
    lemma_kinds();
    lemma_keys();
    lemma_helps();
    lemma_gauge("bbtop_cpu_frequency_hertz"@, "Current CPU frequency by logical CPU"@, name);
    let lines = |item: CpuFrequencyView| frequency_line_of(item);
    let read = |item: CpuFrequencyView| frequency_sample(item, name);
    assert forall|i: int| 0 <= i < items.len() implies {
        &&& complete(lines(#[trigger] items[i]))
        &&& samples(lines(items[i]), name) == one(read(items[i]))
        &&& kinds(lines(items[i]), name) == Seq::<Seq<char>>::empty()
    } by {
        lemma_frequency_lines(items[i], name);
    }
    lemma_joined(items, lines, read, name);
    let rows = joined(items.map_values(lines));
    if !(name == "bbtop_cpu_frequency_hertz"@) {
        lemma_kept_empty(items, read);
    }
    let t0 = gauge_of("bbtop_cpu_frequency_hertz"@, "Current CPU frequency by logical CPU"@);
    let t1 = t0 + rows;
    law_readings_of_both(t0, rows, name);
    assert(frequencies_of(items) =~= t1);
    assert(samples(t1, name) =~= kept(items, read));
    assert(kinds(t1, name) =~= (if name == "bbtop_cpu_frequency_hertz"@ {
            seq![kind_of(name)]
        } else {
            Seq::empty()
        }));
}

spec fn supply_sample(item: MainsSupplyView, name: Seq<char>) -> Option<Sampled> {
    let labels = seq![("supply"@, item.supply)];
    if name == "bbtop_mains_online"@ {
        Some(Sampled { labels, value: decimal(if item.online { 1 } else { 0 }) })
    } else {
        None
    }
}

proof fn lemma_supply_lines(item: MainsSupplyView, name: Seq<char>)
    ensures
        complete(supply_line_of(item)),
        samples(supply_line_of(item), name) == one(supply_sample(item, name)),
        kinds(supply_line_of(item), name) == Seq::<Seq<char>>::empty(),
{
    lemma_names();
    lemma_keys();
    lemma_one_label("supply"@, item.supply);
    let pairs = seq![("supply"@, item.supply)];
    assert(all_named(pairs));
    let labels = label_list(pairs);
    lemma_decimal_unbroken(if item.online { 1 } else { 0 });
    lemma_flag(item.online);
    lemma_sample("bbtop_mains_online"@, pairs, decimal(if item.online { 1 } else { 0 }), name);
    let t0 = sample_of("bbtop_mains_online"@, labels, decimal(if item.online { 1 } else { 0 }));
    assert(supply_line_of(item) =~= t0);
    assert(samples(t0, name) =~= one(supply_sample(item, name)));
    assert(kinds(t0, name) =~= Seq::<Seq<char>>::empty());
}

proof fn lemma_supplies(items: Seq<MainsSupplyView>, name: Seq<char>)
    ensures
        complete(supplies_of(items)),
        samples(supplies_of(items), name) == kept(items,
            |item: MainsSupplyView| supply_sample(item, name)),
        !(name == "bbtop_mains_online"@) ==> samples(supplies_of(items), name)
            == Seq::<Sampled>::empty(),
        kinds(supplies_of(items), name) == (if name == "bbtop_mains_online"@ {
            seq![kind_of(name)]
        } else {
            Seq::empty()
        }),
{
    reveal(supplies_of);
    lemma_names();
    lemma_kinds();
    lemma_keys();
    lemma_helps();
    lemma_gauge("bbtop_mains_online"@, "Whether an external power supply is online"@, name);
    let lines = |item: MainsSupplyView| supply_line_of(item);
    let read = |item: MainsSupplyView| supply_sample(item, name);
    assert forall|i: int| 0 <= i < items.len() implies {
        &&& complete(lines(#[trigger] items[i]))
        &&& samples(lines(items[i]), name) == one(read(items[i]))
        &&& kinds(lines(items[i]), name) == Seq::<Seq<char>>::empty()
    } by {
        lemma_supply_lines(items[i], name);
    }
    lemma_joined(items, lines, read, name);
    let rows = joined(items.map_values(lines));
    if !(name == "bbtop_mains_online"@) {
        lemma_kept_empty(items, read);
    }
    let t0 = gauge_of("bbtop_mains_online"@, "Whether an external power supply is online"@);
    let t1 = t0 + rows;
    law_readings_of_both(t0, rows, name);
    assert(supplies_of(items) =~= t1);
    assert(samples(t1, name) =~= kept(items, read));
    assert(kinds(t1, name) =~= (if name == "bbtop_mains_online"@ {
            seq![kind_of(name)]
        } else {
            Seq::empty()
        }));
}

spec fn nvme_sample(item: NvmeSmartView, name: Seq<char>) -> Option<Sampled> {
    let labels = seq![("device"@, item.device)];
    if name == "bbtop_nvme_percentage_used"@ {
        Some(Sampled { labels, value: decimal(item.percentage_used as nat) })
    } else if name == "bbtop_nvme_available_spare_percent"@ {
        Some(Sampled { labels, value: decimal(item.available_spare as nat) })
    } else if name == "bbtop_nvme_available_spare_threshold_percent"@ {
        Some(Sampled { labels, value: decimal(item.available_spare_threshold as nat) })
    } else if name == "bbtop_nvme_critical_warning"@ {
        Some(Sampled { labels, value: decimal(item.critical_warning as nat) })
    } else if name == "bbtop_nvme_data_read_bytes_total"@ {
        Some(Sampled { labels, value: decimal(data_bytes(item.data_units_read)) })
    } else if name == "bbtop_nvme_data_written_bytes_total"@ {
        Some(Sampled { labels, value: decimal(data_bytes(item.data_units_written)) })
    } else if name == "bbtop_nvme_power_cycles_total"@ {
        Some(Sampled { labels, value: decimal(item.power_cycles as nat) })
    } else if name == "bbtop_nvme_power_on_hours_total"@ {
        Some(Sampled { labels, value: decimal(item.power_on_hours as nat) })
    } else if name == "bbtop_nvme_unsafe_shutdowns_total"@ {
        Some(Sampled { labels, value: decimal(item.unsafe_shutdowns as nat) })
    } else if name == "bbtop_nvme_media_errors_total"@ {
        Some(Sampled { labels, value: decimal(item.media_errors as nat) })
    } else if name == "bbtop_nvme_error_log_entries_total"@ {
        Some(Sampled { labels, value: decimal(item.error_log_entries as nat) })
    } else {
        None
    }
}

proof fn lemma_nvme_lines(item: NvmeSmartView, name: Seq<char>)
    ensures
        complete(nvme_lines_of(item)),
        samples(nvme_lines_of(item), name) == one(nvme_sample(item, name)),
        kinds(nvme_lines_of(item), name) == Seq::<Seq<char>>::empty(),
{
    lemma_names();
    lemma_keys();
    lemma_one_label("device"@, item.device);
    let pairs = seq![("device"@, item.device)];
    assert(all_named(pairs));
    let labels = label_list(pairs);
    lemma_nothing(name);
    let t0 = Seq::<char>::empty();
    lemma_decimal_unbroken(item.percentage_used as nat);
    lemma_sample_next(t0, "bbtop_nvme_percentage_used"@, pairs,
        decimal(item.percentage_used as nat), name);
    let t1 = t0 + sample_of("bbtop_nvme_percentage_used"@, labels,
        decimal(item.percentage_used as nat));
    lemma_decimal_unbroken(item.available_spare as nat);
    lemma_sample_next(t1, "bbtop_nvme_available_spare_percent"@, pairs,
        decimal(item.available_spare as nat), name);
    let t2 = t1 + sample_of("bbtop_nvme_available_spare_percent"@, labels,
        decimal(item.available_spare as nat));
    lemma_decimal_unbroken(item.available_spare_threshold as nat);
    lemma_sample_next(t2, "bbtop_nvme_available_spare_threshold_percent"@, pairs,
        decimal(item.available_spare_threshold as nat), name);
    let t3 = t2 + sample_of("bbtop_nvme_available_spare_threshold_percent"@, labels,
        decimal(item.available_spare_threshold as nat));
    lemma_decimal_unbroken(item.critical_warning as nat);
    lemma_sample_next(t3, "bbtop_nvme_critical_warning"@, pairs,
        decimal(item.critical_warning as nat), name);
    let t4 = t3 + sample_of("bbtop_nvme_critical_warning"@, labels,
        decimal(item.critical_warning as nat));
    lemma_decimal_unbroken(data_bytes(item.data_units_read));
    lemma_sample_next(t4, "bbtop_nvme_data_read_bytes_total"@, pairs,
        decimal(data_bytes(item.data_units_read)), name);
    let t5 = t4 + sample_of("bbtop_nvme_data_read_bytes_total"@, labels,
        decimal(data_bytes(item.data_units_read)));
    lemma_decimal_unbroken(data_bytes(item.data_units_written));
    lemma_sample_next(t5, "bbtop_nvme_data_written_bytes_total"@, pairs,
        decimal(data_bytes(item.data_units_written)), name);
    let t6 = t5 + sample_of("bbtop_nvme_data_written_bytes_total"@, labels,
        decimal(data_bytes(item.data_units_written)));
    lemma_decimal_unbroken(item.power_cycles as nat);
    lemma_sample_next(t6, "bbtop_nvme_power_cycles_total"@, pairs,
        decimal(item.power_cycles as nat), name);
    let t7 = t6 + sample_of("bbtop_nvme_power_cycles_total"@, labels,
        decimal(item.power_cycles as nat));
    lemma_decimal_unbroken(item.power_on_hours as nat);
    lemma_sample_next(t7, "bbtop_nvme_power_on_hours_total"@, pairs,
        decimal(item.power_on_hours as nat), name);
    let t8 = t7 + sample_of("bbtop_nvme_power_on_hours_total"@, labels,
        decimal(item.power_on_hours as nat));
    lemma_decimal_unbroken(item.unsafe_shutdowns as nat);
    lemma_sample_next(t8, "bbtop_nvme_unsafe_shutdowns_total"@, pairs,
        decimal(item.unsafe_shutdowns as nat), name);
    let t9 = t8 + sample_of("bbtop_nvme_unsafe_shutdowns_total"@, labels,
        decimal(item.unsafe_shutdowns as nat));
    lemma_decimal_unbroken(item.media_errors as nat);
    lemma_sample_next(t9, "bbtop_nvme_media_errors_total"@, pairs,
        decimal(item.media_errors as nat), name);
    let t10 = t9 + sample_of("bbtop_nvme_media_errors_total"@, labels,
        decimal(item.media_errors as nat));
    lemma_decimal_unbroken(item.error_log_entries as nat);
    lemma_sample_next(t10, "bbtop_nvme_error_log_entries_total"@, pairs,
        decimal(item.error_log_entries as nat), name);
    let t11 = t10 + sample_of("bbtop_nvme_error_log_entries_total"@, labels,
        decimal(item.error_log_entries as nat));
    assert(nvme_lines_of(item) =~= t11);
}

proof fn lemma_nvme(items: Seq<NvmeSmartView>, name: Seq<char>)
    ensures
        complete(nvme_of(items)),
        samples(nvme_of(items), name) == kept(items, |item: NvmeSmartView| nvme_sample(item, name)),
        !(name == "bbtop_nvme_percentage_used"@ || name == "bbtop_nvme_available_spare_percent"@
            || name == "bbtop_nvme_available_spare_threshold_percent"@ || name
            == "bbtop_nvme_critical_warning"@ || name == "bbtop_nvme_data_read_bytes_total"@ || name
            == "bbtop_nvme_data_written_bytes_total"@ || name == "bbtop_nvme_power_cycles_total"@
            || name == "bbtop_nvme_power_on_hours_total"@ || name
            == "bbtop_nvme_unsafe_shutdowns_total"@ || name == "bbtop_nvme_media_errors_total"@
            || name == "bbtop_nvme_error_log_entries_total"@) ==> samples(nvme_of(items), name)
            == Seq::<Sampled>::empty(),
        kinds(nvme_of(items), name) == (if name == "bbtop_nvme_percentage_used"@ || name
            == "bbtop_nvme_available_spare_percent"@ || name
            == "bbtop_nvme_available_spare_threshold_percent"@ || name
            == "bbtop_nvme_critical_warning"@ || name == "bbtop_nvme_data_read_bytes_total"@ || name
            == "bbtop_nvme_data_written_bytes_total"@ || name == "bbtop_nvme_power_cycles_total"@
            || name == "bbtop_nvme_power_on_hours_total"@ || name
            == "bbtop_nvme_unsafe_shutdowns_total"@ || name == "bbtop_nvme_media_errors_total"@
            || name == "bbtop_nvme_error_log_entries_total"@ {
            seq![kind_of(name)]
        } else {
            Seq::empty()
        }),
{
    reveal(nvme_of);
    lemma_names();
    lemma_kinds();
    lemma_keys();
    lemma_helps();
    lemma_type("bbtop_nvme_percentage_used"@, kind_of("bbtop_nvme_percentage_used"@), name);
    lemma_type("bbtop_nvme_available_spare_percent"@,
        kind_of("bbtop_nvme_available_spare_percent"@), name);
    lemma_type("bbtop_nvme_available_spare_threshold_percent"@,
        kind_of("bbtop_nvme_available_spare_threshold_percent"@), name);
    lemma_type("bbtop_nvme_critical_warning"@, kind_of("bbtop_nvme_critical_warning"@), name);
    lemma_type("bbtop_nvme_data_read_bytes_total"@, kind_of("bbtop_nvme_data_read_bytes_total"@),
        name);
    lemma_type("bbtop_nvme_data_written_bytes_total"@,
        kind_of("bbtop_nvme_data_written_bytes_total"@), name);
    lemma_type("bbtop_nvme_power_cycles_total"@, kind_of("bbtop_nvme_power_cycles_total"@), name);
    lemma_type("bbtop_nvme_power_on_hours_total"@, kind_of("bbtop_nvme_power_on_hours_total"@),
        name);
    lemma_type("bbtop_nvme_unsafe_shutdowns_total"@, kind_of("bbtop_nvme_unsafe_shutdowns_total"@),
        name);
    lemma_type("bbtop_nvme_media_errors_total"@, kind_of("bbtop_nvme_media_errors_total"@), name);
    lemma_type("bbtop_nvme_error_log_entries_total"@,
        kind_of("bbtop_nvme_error_log_entries_total"@), name);
    let lines = |item: NvmeSmartView| nvme_lines_of(item);
    let read = |item: NvmeSmartView| nvme_sample(item, name);
    assert forall|i: int| 0 <= i < items.len() implies {
        &&& complete(lines(#[trigger] items[i]))
        &&& samples(lines(items[i]), name) == one(read(items[i]))
        &&& kinds(lines(items[i]), name) == Seq::<Seq<char>>::empty()
    } by {
        lemma_nvme_lines(items[i], name);
    }
    lemma_joined(items, lines, read, name);
    let rows = joined(items.map_values(lines));
    if !(name == "bbtop_nvme_percentage_used"@ || name == "bbtop_nvme_available_spare_percent"@
        || name == "bbtop_nvme_available_spare_threshold_percent"@ || name
        == "bbtop_nvme_critical_warning"@ || name == "bbtop_nvme_data_read_bytes_total"@ || name
        == "bbtop_nvme_data_written_bytes_total"@ || name == "bbtop_nvme_power_cycles_total"@
        || name == "bbtop_nvme_power_on_hours_total"@ || name
        == "bbtop_nvme_unsafe_shutdowns_total"@ || name == "bbtop_nvme_media_errors_total"@ || name
        == "bbtop_nvme_error_log_entries_total"@) {
        lemma_kept_empty(items, read);
    }
    let t0 = series_of("bbtop_nvme_percentage_used"@);
    let t1 = t0 + series_of("bbtop_nvme_available_spare_percent"@);
    law_readings_of_both(t0, series_of("bbtop_nvme_available_spare_percent"@), name);
    let t2 = t1 + series_of("bbtop_nvme_available_spare_threshold_percent"@);
    law_readings_of_both(t1, series_of("bbtop_nvme_available_spare_threshold_percent"@), name);
    let t3 = t2 + series_of("bbtop_nvme_critical_warning"@);
    law_readings_of_both(t2, series_of("bbtop_nvme_critical_warning"@), name);
    let t4 = t3 + series_of("bbtop_nvme_data_read_bytes_total"@);
    law_readings_of_both(t3, series_of("bbtop_nvme_data_read_bytes_total"@), name);
    let t5 = t4 + series_of("bbtop_nvme_data_written_bytes_total"@);
    law_readings_of_both(t4, series_of("bbtop_nvme_data_written_bytes_total"@), name);
    let t6 = t5 + series_of("bbtop_nvme_power_cycles_total"@);
    law_readings_of_both(t5, series_of("bbtop_nvme_power_cycles_total"@), name);
    let t7 = t6 + series_of("bbtop_nvme_power_on_hours_total"@);
    law_readings_of_both(t6, series_of("bbtop_nvme_power_on_hours_total"@), name);
    let t8 = t7 + series_of("bbtop_nvme_unsafe_shutdowns_total"@);
    law_readings_of_both(t7, series_of("bbtop_nvme_unsafe_shutdowns_total"@), name);
    let t9 = t8 + series_of("bbtop_nvme_media_errors_total"@);
    law_readings_of_both(t8, series_of("bbtop_nvme_media_errors_total"@), name);
    let t10 = t9 + series_of("bbtop_nvme_error_log_entries_total"@);
    law_readings_of_both(t9, series_of("bbtop_nvme_error_log_entries_total"@), name);
    let t11 = t10 + rows;
    law_readings_of_both(t10, rows, name);
    assert(nvme_of(items) =~= t11);
    assert(samples(t11, name) =~= kept(items, read));
    assert(kinds(t11, name) =~= (if name == "bbtop_nvme_percentage_used"@ || name
        == "bbtop_nvme_available_spare_percent"@ || name
        == "bbtop_nvme_available_spare_threshold_percent"@ || name == "bbtop_nvme_critical_warning"@
        || name == "bbtop_nvme_data_read_bytes_total"@ || name
        == "bbtop_nvme_data_written_bytes_total"@ || name == "bbtop_nvme_power_cycles_total"@
        || name == "bbtop_nvme_power_on_hours_total"@ || name
        == "bbtop_nvme_unsafe_shutdowns_total"@ || name == "bbtop_nvme_media_errors_total"@ || name
        == "bbtop_nvme_error_log_entries_total"@ {
            seq![kind_of(name)]
        } else {
            Seq::empty()
        }));
}

spec fn gpu_sample(item: GpuView, name: Seq<char>) -> Option<Sampled> {
    let labels = seq![("card"@, item.card), ("driver"@, item.driver)];
    if name == "bbtop_gpu_busy_percent"@ {
        Some(Sampled { labels, value: item.busy_percent.thousandths })
    } else if name == "bbtop_gpu_vram_used_bytes"@ {
        Some(Sampled { labels, value: decimal(item.vram_used_bytes as nat) })
    } else if name == "bbtop_gpu_vram_total_bytes"@ {
        Some(Sampled { labels, value: decimal(item.vram_total_bytes as nat) })
    } else {
        None
    }
}

proof fn lemma_gpu_lines(item: GpuView, name: Seq<char>)
    requires
        unbroken(item.busy_percent.thousandths),
    ensures
        complete(gpu_lines_of(item)),
        samples(gpu_lines_of(item), name) == one(gpu_sample(item, name)),
        kinds(gpu_lines_of(item), name) == Seq::<Seq<char>>::empty(),
{
    lemma_names();
    lemma_keys();
    lemma_two_labels("card"@, item.card, "driver"@, item.driver);
    let pairs = seq![("card"@, item.card), ("driver"@, item.driver)];
    assert(all_named(pairs));
    let labels = label_list(pairs);
    lemma_sample("bbtop_gpu_busy_percent"@, pairs, item.busy_percent.thousandths, name);
    lemma_decimal_unbroken(item.vram_used_bytes as nat);
    lemma_sample("bbtop_gpu_vram_used_bytes"@, pairs, decimal(item.vram_used_bytes as nat), name);
    lemma_decimal_unbroken(item.vram_total_bytes as nat);
    lemma_sample("bbtop_gpu_vram_total_bytes"@, pairs, decimal(item.vram_total_bytes as nat), name);
    let t0 = sample_of("bbtop_gpu_busy_percent"@, labels, item.busy_percent.thousandths);
    let t1 = t0 + sample_of("bbtop_gpu_vram_used_bytes"@, labels,
        decimal(item.vram_used_bytes as nat));
    law_readings_of_both(t0, sample_of("bbtop_gpu_vram_used_bytes"@, labels,
        decimal(item.vram_used_bytes as nat)), name);
    let t2 = t1 + sample_of("bbtop_gpu_vram_total_bytes"@, labels,
        decimal(item.vram_total_bytes as nat));
    law_readings_of_both(t1, sample_of("bbtop_gpu_vram_total_bytes"@, labels,
        decimal(item.vram_total_bytes as nat)), name);
    assert(gpu_lines_of(item) =~= t2);
    assert(samples(t2, name) =~= one(gpu_sample(item, name)));
    assert(kinds(t2, name) =~= Seq::<Seq<char>>::empty());
}

proof fn lemma_gpus(items: Seq<GpuView>, name: Seq<char>)
    requires
        forall|i: int| 0 <= i < items.len() ==> {
            let item = #[trigger] items[i];
            unbroken(item.busy_percent.thousandths)
        },
    ensures
        complete(gpus_of(items)),
        samples(gpus_of(items), name) == kept(items, |item: GpuView| gpu_sample(item, name)),
        !(name == "bbtop_gpu_busy_percent"@ || name == "bbtop_gpu_vram_used_bytes"@ || name
            == "bbtop_gpu_vram_total_bytes"@) ==> samples(gpus_of(items), name)
            == Seq::<Sampled>::empty(),
        kinds(gpus_of(items), name) == (if name == "bbtop_gpu_busy_percent"@ || name
            == "bbtop_gpu_vram_used_bytes"@ || name == "bbtop_gpu_vram_total_bytes"@ {
            seq![kind_of(name)]
        } else {
            Seq::empty()
        }),
{
    reveal(gpus_of);
    lemma_names();
    lemma_kinds();
    lemma_keys();
    lemma_helps();
    lemma_type("bbtop_gpu_busy_percent"@, kind_of("bbtop_gpu_busy_percent"@), name);
    lemma_type("bbtop_gpu_vram_used_bytes"@, kind_of("bbtop_gpu_vram_used_bytes"@), name);
    lemma_type("bbtop_gpu_vram_total_bytes"@, kind_of("bbtop_gpu_vram_total_bytes"@), name);
    let lines = |item: GpuView| gpu_lines_of(item);
    let read = |item: GpuView| gpu_sample(item, name);
    assert forall|i: int| 0 <= i < items.len() implies {
        &&& complete(lines(#[trigger] items[i]))
        &&& samples(lines(items[i]), name) == one(read(items[i]))
        &&& kinds(lines(items[i]), name) == Seq::<Seq<char>>::empty()
    } by {
        lemma_gpu_lines(items[i], name);
    }
    lemma_joined(items, lines, read, name);
    let rows = joined(items.map_values(lines));
    if !(name == "bbtop_gpu_busy_percent"@ || name == "bbtop_gpu_vram_used_bytes"@ || name
        == "bbtop_gpu_vram_total_bytes"@) {
        lemma_kept_empty(items, read);
    }
    let t0 = series_of("bbtop_gpu_busy_percent"@);
    let t1 = t0 + series_of("bbtop_gpu_vram_used_bytes"@);
    law_readings_of_both(t0, series_of("bbtop_gpu_vram_used_bytes"@), name);
    let t2 = t1 + series_of("bbtop_gpu_vram_total_bytes"@);
    law_readings_of_both(t1, series_of("bbtop_gpu_vram_total_bytes"@), name);
    let t3 = t2 + rows;
    law_readings_of_both(t2, rows, name);
    assert(gpus_of(items) =~= t3);
    assert(samples(t3, name) =~= kept(items, read));
    assert(kinds(t3, name) =~= (if name == "bbtop_gpu_busy_percent"@ || name
        == "bbtop_gpu_vram_used_bytes"@ || name == "bbtop_gpu_vram_total_bytes"@ {
            seq![kind_of(name)]
        } else {
            Seq::empty()
        }));
}

spec fn filesystem_sample(item: FilesystemView, name: Seq<char>) -> Option<Sampled> {
    let labels = seq![("device"@, item.device), ("mountpoint"@, item.mountpoint),
        ("fstype"@, item.filesystem_type)];
    if name == "bbtop_filesystem_size_bytes"@ {
        Some(Sampled { labels, value: decimal(item.size_bytes as nat) })
    } else if name == "bbtop_filesystem_available_bytes"@ {
        Some(Sampled { labels, value: decimal(item.available_bytes as nat) })
    } else if name == "bbtop_filesystem_used_bytes"@ {
        Some(Sampled { labels, value: decimal(used_bytes(item)) })
    } else {
        None
    }
}

proof fn lemma_filesystem_lines(item: FilesystemView, name: Seq<char>)
    ensures
        complete(filesystem_lines_of(item)),
        samples(filesystem_lines_of(item), name) == one(filesystem_sample(item, name)),
        kinds(filesystem_lines_of(item), name) == Seq::<Seq<char>>::empty(),
{
    lemma_names();
    lemma_keys();
    lemma_three_labels(("device"@, item.device), ("mountpoint"@, item.mountpoint),
        ("fstype"@, item.filesystem_type));
    let pairs = seq![("device"@, item.device), ("mountpoint"@, item.mountpoint),
        ("fstype"@, item.filesystem_type)];
    assert(all_named(pairs));
    let labels = label_list(pairs);
    lemma_decimal_unbroken(item.size_bytes as nat);
    lemma_sample("bbtop_filesystem_size_bytes"@, pairs, decimal(item.size_bytes as nat), name);
    lemma_decimal_unbroken(item.available_bytes as nat);
    lemma_sample("bbtop_filesystem_available_bytes"@, pairs, decimal(item.available_bytes as nat),
        name);
    lemma_decimal_unbroken(used_bytes(item));
    lemma_sample("bbtop_filesystem_used_bytes"@, pairs, decimal(used_bytes(item)), name);
    let t0 = sample_of("bbtop_filesystem_size_bytes"@, labels, decimal(item.size_bytes as nat));
    let t1 = t0 + sample_of("bbtop_filesystem_available_bytes"@, labels,
        decimal(item.available_bytes as nat));
    law_readings_of_both(t0, sample_of("bbtop_filesystem_available_bytes"@, labels,
        decimal(item.available_bytes as nat)), name);
    let t2 = t1 + sample_of("bbtop_filesystem_used_bytes"@, labels, decimal(used_bytes(item)));
    law_readings_of_both(t1, sample_of("bbtop_filesystem_used_bytes"@, labels,
        decimal(used_bytes(item))), name);
    assert(filesystem_lines_of(item) =~= t2);
    assert(samples(t2, name) =~= one(filesystem_sample(item, name)));
    assert(kinds(t2, name) =~= Seq::<Seq<char>>::empty());
}

proof fn lemma_filesystems(items: Seq<FilesystemView>, name: Seq<char>)
    ensures
        complete(filesystems_of(items)),
        samples(filesystems_of(items), name)
            == kept(items, |item: FilesystemView| filesystem_sample(item, name)),
        !(name == "bbtop_filesystem_size_bytes"@ || name == "bbtop_filesystem_available_bytes"@
            || name == "bbtop_filesystem_used_bytes"@) ==> samples(filesystems_of(items), name)
            == Seq::<Sampled>::empty(),
        kinds(filesystems_of(items), name) == (if name == "bbtop_filesystem_size_bytes"@ || name
            == "bbtop_filesystem_available_bytes"@ || name == "bbtop_filesystem_used_bytes"@ {
            seq![kind_of(name)]
        } else {
            Seq::empty()
        }),
{
    reveal(filesystems_of);
    lemma_names();
    lemma_kinds();
    lemma_keys();
    lemma_helps();
    lemma_type("bbtop_filesystem_size_bytes"@, "gauge"@, name);
    lemma_type("bbtop_filesystem_available_bytes"@, "gauge"@, name);
    lemma_type("bbtop_filesystem_used_bytes"@, "gauge"@, name);
    let lines = |item: FilesystemView| filesystem_lines_of(item);
    let read = |item: FilesystemView| filesystem_sample(item, name);
    assert forall|i: int| 0 <= i < items.len() implies {
        &&& complete(lines(#[trigger] items[i]))
        &&& samples(lines(items[i]), name) == one(read(items[i]))
        &&& kinds(lines(items[i]), name) == Seq::<Seq<char>>::empty()
    } by {
        lemma_filesystem_lines(items[i], name);
    }
    lemma_joined(items, lines, read, name);
    let rows = joined(items.map_values(lines));
    if !(name == "bbtop_filesystem_size_bytes"@ || name == "bbtop_filesystem_available_bytes"@
        || name == "bbtop_filesystem_used_bytes"@) {
        lemma_kept_empty(items, read);
    }
    let t0 = type_of("bbtop_filesystem_size_bytes"@, "gauge"@);
    let t1 = t0 + type_of("bbtop_filesystem_available_bytes"@, "gauge"@);
    law_readings_of_both(t0, type_of("bbtop_filesystem_available_bytes"@, "gauge"@), name);
    let t2 = t1 + type_of("bbtop_filesystem_used_bytes"@, "gauge"@);
    law_readings_of_both(t1, type_of("bbtop_filesystem_used_bytes"@, "gauge"@), name);
    let t3 = t2 + rows;
    law_readings_of_both(t2, rows, name);
    assert(filesystems_of(items) =~= t3);
    assert(samples(t3, name) =~= kept(items, read));
    assert(kinds(t3, name) =~= (if name == "bbtop_filesystem_size_bytes"@ || name
        == "bbtop_filesystem_available_bytes"@ || name == "bbtop_filesystem_used_bytes"@ {
            seq![kind_of(name)]
        } else {
            Seq::empty()
        }));
}

proof fn lemma_metric_next(
    text: Seq<char>,
    metric: Seq<char>,
    value: Seq<char>,
    name: Seq<char>,
)
    requires
        complete(text),
        is_name(metric),
        is_name(kind_of(metric)),
        unbroken(value),
        name == metric ==> samples(text, name) == Seq::<Sampled>::empty() && kinds(text, name)
            == Seq::<Seq<char>>::empty(),
    ensures
        complete(text + metric_of(metric, kind_of(metric), value)),
        samples(text + metric_of(metric, kind_of(metric), value), name) == if name == metric {
            seq![Sampled { labels: Seq::empty(), value }]
        } else {
            samples(text, name)
        },
        kinds(text + metric_of(metric, kind_of(metric), value), name) == if name == metric {
            seq![kind_of(metric)]
        } else {
            kinds(text, name)
        },
{
    let kind = kind_of(metric);
    let next = metric_of(metric, kind, value);
    lemma_type(metric, kind, name);
    lemma_plain(metric, value, name);
    law_readings_of_both(type_of(metric, kind), plain_sample(metric, value), name);
    law_readings_of_both(text, next, name);
    assert(samples(text + next, name) =~= if name == metric {
        seq![Sampled { labels: Seq::empty(), value }]
    } else {
        samples(text, name)
    });
    assert(kinds(text + next, name) =~= if name == metric {
        seq![kind_of(metric)]
    } else {
        kinds(text, name)
    });
}

/// The samples and the kinds of whole lines, where what follows has none under the
/// name, or they themselves have none.
proof fn lemma_part(text: Seq<char>, part: Seq<char>, name: Seq<char>)
    requires
        complete(text),
        complete(part),
    ensures
        complete(text + part),
        samples(part, name) == Seq::<Sampled>::empty() ==> samples(text + part, name) == samples(
            text,
            name,
        ),
        samples(text, name) == Seq::<Sampled>::empty() ==> samples(text + part, name) == samples(
            part,
            name,
        ),
        kinds(part, name) == Seq::<Seq<char>>::empty() ==> kinds(text + part, name) == kinds(
            text,
            name,
        ),
        kinds(text, name) == Seq::<Seq<char>>::empty() ==> kinds(text + part, name) == kinds(
            part,
            name,
        ),
{
    law_readings_of_both(text, part, name);
    let s = samples(text, name);
    let t = samples(part, name);
    let k = kinds(text, name);
    let l = kinds(part, name);
    if t == Seq::<Sampled>::empty() {
        assert(s + t =~= s);
    }
    if s == Seq::<Sampled>::empty() {
        assert(s + t =~= t);
    }
    if l == Seq::<Seq<char>>::empty() {
        assert(k + l =~= k);
    }
    if k == Seq::<Seq<char>>::empty() {
        assert(k + l =~= l);
    }
}

spec fn host_names(name: Seq<char>) -> bool {
    ||| name == "bbtop_cpu_usage_percent"@
    ||| name == "bbtop_cpu_logical_count"@
    ||| name == "bbtop_memory_total_bytes"@
    ||| name == "bbtop_memory_available_bytes"@
    ||| name == "bbtop_swap_total_bytes"@
    ||| name == "bbtop_swap_free_bytes"@
    ||| name == "bbtop_load1"@
    ||| name == "bbtop_load5"@
    ||| name == "bbtop_load15"@
    ||| name == "bbtop_uptime_seconds"@
}

proof fn lemma_host(snapshot: Snapshot, name: Seq<char>)
    requires
        unbroken(snapshot.cpu_percent.shortest@),
        unbroken(snapshot.load@[0].shortest@),
        unbroken(snapshot.load@[1].shortest@),
        unbroken(snapshot.load@[2].shortest@),
        unbroken(snapshot.uptime.shortest@),
    ensures
        complete(host_of(snapshot)),
        name == "bbtop_cpu_usage_percent"@ ==> samples(host_of(snapshot), name) == seq![
            Sampled { labels: Seq::empty(), value: snapshot.cpu_percent.shortest@ },
        ],
        name == "bbtop_cpu_logical_count"@ ==> samples(host_of(snapshot), name) == seq![
            Sampled { labels: Seq::empty(), value: decimal(snapshot.cpu_count as nat) },
        ],
        name == "bbtop_memory_total_bytes"@ ==> samples(host_of(snapshot), name) == seq![
            Sampled { labels: Seq::empty(), value: decimal(snapshot.memory_total as nat) },
        ],
        name == "bbtop_memory_available_bytes"@ ==> samples(host_of(snapshot), name) == seq![
            Sampled { labels: Seq::empty(), value: decimal(snapshot.memory_available as nat) },
        ],
        name == "bbtop_swap_total_bytes"@ ==> samples(host_of(snapshot), name) == seq![
            Sampled { labels: Seq::empty(), value: decimal(snapshot.swap_total as nat) },
        ],
        name == "bbtop_swap_free_bytes"@ ==> samples(host_of(snapshot), name) == seq![
            Sampled { labels: Seq::empty(), value: decimal(snapshot.swap_free as nat) },
        ],
        name == "bbtop_load1"@ ==> samples(host_of(snapshot), name) == seq![
            Sampled { labels: Seq::empty(), value: snapshot.load@[0].shortest@ },
        ],
        name == "bbtop_load5"@ ==> samples(host_of(snapshot), name) == seq![
            Sampled { labels: Seq::empty(), value: snapshot.load@[1].shortest@ },
        ],
        name == "bbtop_load15"@ ==> samples(host_of(snapshot), name) == seq![
            Sampled { labels: Seq::empty(), value: snapshot.load@[2].shortest@ },
        ],
        name == "bbtop_uptime_seconds"@ ==> samples(host_of(snapshot), name) == seq![
            Sampled { labels: Seq::empty(), value: snapshot.uptime.shortest@ },
        ],
        !host_names(name) ==> samples(host_of(snapshot), name) == Seq::<Sampled>::empty(),
        kinds(host_of(snapshot), name) == if host_names(name) {
            seq![kind_of(name)]
        } else {
            Seq::empty()
        },
{
    reveal(host_of);
    lemma_names();
    lemma_kinds();
    lemma_keys();
    lemma_nothing(name);
    let t0 = Seq::<char>::empty();
    lemma_metric_next(t0, "bbtop_cpu_usage_percent"@, snapshot.cpu_percent.shortest@, name);
    let t1 = t0 + metric_of("bbtop_cpu_usage_percent"@, "gauge"@, snapshot.cpu_percent.shortest@);
    lemma_decimal_unbroken(snapshot.cpu_count as nat);
    lemma_metric_next(t1, "bbtop_cpu_logical_count"@, decimal(snapshot.cpu_count as nat), name);
    let t2 = t1 + metric_of("bbtop_cpu_logical_count"@, "gauge"@,
        decimal(snapshot.cpu_count as nat));
    lemma_decimal_unbroken(snapshot.memory_total as nat);
    lemma_metric_next(t2, "bbtop_memory_total_bytes"@, decimal(snapshot.memory_total as nat), name);
    let t3 = t2 + metric_of("bbtop_memory_total_bytes"@, "gauge"@,
        decimal(snapshot.memory_total as nat));
    lemma_decimal_unbroken(snapshot.memory_available as nat);
    lemma_metric_next(t3, "bbtop_memory_available_bytes"@,
        decimal(snapshot.memory_available as nat), name);
    let t4 = t3 + metric_of("bbtop_memory_available_bytes"@, "gauge"@,
        decimal(snapshot.memory_available as nat));
    lemma_decimal_unbroken(snapshot.swap_total as nat);
    lemma_metric_next(t4, "bbtop_swap_total_bytes"@, decimal(snapshot.swap_total as nat), name);
    let t5 = t4 + metric_of("bbtop_swap_total_bytes"@, "gauge"@,
        decimal(snapshot.swap_total as nat));
    lemma_decimal_unbroken(snapshot.swap_free as nat);
    lemma_metric_next(t5, "bbtop_swap_free_bytes"@, decimal(snapshot.swap_free as nat), name);
    let t6 = t5 + metric_of("bbtop_swap_free_bytes"@, "gauge"@, decimal(snapshot.swap_free as nat));
    lemma_metric_next(t6, "bbtop_load1"@, snapshot.load@[0].shortest@, name);
    let t7 = t6 + metric_of("bbtop_load1"@, "gauge"@, snapshot.load@[0].shortest@);
    lemma_metric_next(t7, "bbtop_load5"@, snapshot.load@[1].shortest@, name);
    let t8 = t7 + metric_of("bbtop_load5"@, "gauge"@, snapshot.load@[1].shortest@);
    lemma_metric_next(t8, "bbtop_load15"@, snapshot.load@[2].shortest@, name);
    let t9 = t8 + metric_of("bbtop_load15"@, "gauge"@, snapshot.load@[2].shortest@);
    lemma_metric_next(t9, "bbtop_uptime_seconds"@, snapshot.uptime.shortest@, name);
    let t10 = t9 + metric_of("bbtop_uptime_seconds"@, "gauge"@, snapshot.uptime.shortest@);
    assert(host_of(snapshot) =~= t10);
}

spec fn activity_names(name: Seq<char>) -> bool {
    ||| name == "bbtop_disk_read_bytes_total"@
    ||| name == "bbtop_disk_write_bytes_total"@
    ||| name == "bbtop_processes"@
    ||| name == "bbtop_processes_running"@
    ||| name == "bbtop_last_collection_timestamp_seconds"@
}

proof fn lemma_activity(snapshot: Snapshot, name: Seq<char>)
    ensures
        complete(activity_of(snapshot)),
        name == "bbtop_disk_read_bytes_total"@ ==> samples(activity_of(snapshot), name) == seq![
            Sampled { labels: Seq::empty(), value: decimal(snapshot.disk_read_bytes as nat) },
        ],
        name == "bbtop_disk_write_bytes_total"@ ==> samples(activity_of(snapshot), name) == seq![
            Sampled { labels: Seq::empty(), value: decimal(snapshot.disk_write_bytes as nat) },
        ],
        name == "bbtop_processes"@ ==> samples(activity_of(snapshot), name) == seq![
            Sampled { labels: Seq::empty(), value: decimal(snapshot.processes_total as nat) },
        ],
        name == "bbtop_processes_running"@ ==> samples(activity_of(snapshot), name) == seq![
            Sampled { labels: Seq::empty(), value: decimal(snapshot.processes_running as nat) },
        ],
        name == "bbtop_last_collection_timestamp_seconds"@ ==> samples(activity_of(snapshot), name)
            == seq![
            Sampled { labels: Seq::empty(), value: decimal(snapshot.timestamp as nat) },
        ],
        !activity_names(name) ==> samples(activity_of(snapshot), name) == Seq::<Sampled>::empty(),
        kinds(activity_of(snapshot), name) == if activity_names(name) {
            seq![kind_of(name)]
        } else {
            Seq::empty()
        },
{
    reveal(activity_of);
    lemma_names();
    lemma_kinds();
    lemma_keys();
    lemma_nothing(name);
    let t0 = Seq::<char>::empty();
    lemma_decimal_unbroken(snapshot.disk_read_bytes as nat);
    lemma_metric_next(t0, "bbtop_disk_read_bytes_total"@, decimal(snapshot.disk_read_bytes as nat),
        name);
    let t1 = t0 + metric_of("bbtop_disk_read_bytes_total"@, "counter"@,
        decimal(snapshot.disk_read_bytes as nat));
    lemma_decimal_unbroken(snapshot.disk_write_bytes as nat);
    lemma_metric_next(t1, "bbtop_disk_write_bytes_total"@,
        decimal(snapshot.disk_write_bytes as nat), name);
    let t2 = t1 + metric_of("bbtop_disk_write_bytes_total"@, "counter"@,
        decimal(snapshot.disk_write_bytes as nat));
    lemma_decimal_unbroken(snapshot.processes_total as nat);
    lemma_metric_next(t2, "bbtop_processes"@, decimal(snapshot.processes_total as nat), name);
    let t3 = t2 + metric_of("bbtop_processes"@, "gauge"@, decimal(snapshot.processes_total as nat));
    lemma_decimal_unbroken(snapshot.processes_running as nat);
    lemma_metric_next(t3, "bbtop_processes_running"@, decimal(snapshot.processes_running as nat),
        name);
    let t4 = t3 + metric_of("bbtop_processes_running"@, "gauge"@,
        decimal(snapshot.processes_running as nat));
    lemma_decimal_unbroken(snapshot.timestamp as nat);
    lemma_metric_next(t4, "bbtop_last_collection_timestamp_seconds"@,
        decimal(snapshot.timestamp as nat), name);
    let t5 = t4 + metric_of("bbtop_last_collection_timestamp_seconds"@, "gauge"@,
        decimal(snapshot.timestamp as nat));
    assert(activity_of(snapshot) =~= t5);
}

proof fn lemma_count(metric: Seq<char>, count: nat, name: Seq<char>)
    requires
        is_name(metric),
        kind_of(metric) == "gauge"@,
    ensures
        complete(metric_of(metric, "gauge"@, decimal(count))),
        samples(metric_of(metric, "gauge"@, decimal(count)), name) == if name == metric {
            seq![Sampled { labels: Seq::empty(), value: decimal(count) }]
        } else {
            Seq::empty()
        },
        kinds(metric_of(metric, "gauge"@, decimal(count)), name) == if name == metric {
            seq![kind_of(metric)]
        } else {
            Seq::empty()
        },
{
    lemma_keys();
    lemma_nothing(name);
    lemma_decimal_unbroken(count);
    let none = Seq::<char>::empty();
    lemma_metric_next(none, metric, decimal(count), name);
    assert(none + metric_of(metric, "gauge"@, decimal(count)) =~= metric_of(
        metric,
        "gauge"@,
        decimal(count),
    ));
}

spec fn reading_sample(metric: Seq<char>, item: ElectricalReadingView, name: Seq<char>) -> Option<
    Sampled,
> {
    if name == metric {
        Some(
            Sampled {
                labels: seq![("chip"@, item.chip), ("sensor"@, item.sensor)],
                value: item.value.millionths,
            },
        )
    } else {
        None
    }
}

proof fn lemma_readings(
    metric: Seq<char>,
    help: Seq<char>,
    items: Seq<ElectricalReadingView>,
    name: Seq<char>,
)
    requires
        is_name(metric),
        kind_of(metric) == "gauge"@,
        one_line(help),
        help.len() > 0,
        forall|i: int| 0 <= i < items.len() ==> unbroken((#[trigger] items[i]).value.millionths),
    ensures
        complete(readings_of(metric, help, items)),
        samples(readings_of(metric, help, items), name) == kept(
            items,
            |item: ElectricalReadingView| reading_sample(metric, item, name),
        ),
        name != metric ==> samples(readings_of(metric, help, items), name) == Seq::<
            Sampled,
        >::empty(),
        kinds(readings_of(metric, help, items), name) == if name == metric {
            seq![kind_of(metric)]
        } else {
            Seq::empty()
        },
{
    reveal(readings_of);
    lemma_gauge(metric, help, name);
    let lines = |item: ElectricalReadingView| reading_line_of(metric, item);
    let read = |item: ElectricalReadingView| reading_sample(metric, item, name);
    assert forall|i: int| 0 <= i < items.len() implies {
        &&& complete(lines(#[trigger] items[i]))
        &&& samples(lines(items[i]), name) == one(read(items[i]))
        &&& kinds(lines(items[i]), name) == Seq::<Seq<char>>::empty()
    } by {
        let item = items[i];
        lemma_keys();
        lemma_two_labels("chip"@, item.chip, "sensor"@, item.sensor);
        let pairs = seq![("chip"@, item.chip), ("sensor"@, item.sensor)];
        assert(all_named(pairs));
        lemma_sample(metric, pairs, item.value.millionths, name);
    }
    lemma_joined(items, lines, read, name);
    if name != metric {
        lemma_kept_empty(items, read);
    }
    let rows = joined(items.map_values(lines));
    law_readings_of_both(gauge_of(metric, help), rows, name);
    assert(readings_of(metric, help, items) =~= gauge_of(metric, help) + rows);
    assert(samples(gauge_of(metric, help) + rows, name) =~= kept(items, read));
    assert(kinds(gauge_of(metric, help) + rows, name) =~= if name == metric {
        seq![kind_of(metric)]
    } else {
        Seq::empty()
    });
}

spec fn battery_sample(item: BatteryPowerView, name: Seq<char>) -> Option<Sampled> {
    let labels = seq![("battery"@, item.battery), ("status"@, item.status)];
    if name == "bbtop_battery_power_watts"@ {
        Some(Sampled { labels, value: item.watts.millionths })
    } else if name == "bbtop_battery_charge_percent"@ && item.charge_percent is Some {
        Some(Sampled { labels, value: item.charge_percent->0.thousandths })
    } else {
        None
    }
}

/// Whether what is printed of a battery is in one piece.
pub open spec fn printable_battery(item: BatteryPowerView) -> bool {
    unbroken(item.watts.millionths) && (item.charge_percent matches Some(charge) ==> unbroken(
        charge.thousandths,
    ))
}

proof fn lemma_battery_lines(item: BatteryPowerView, name: Seq<char>)
    requires
        printable_battery(item),
    ensures
        complete(battery_lines_of(item)),
        samples(battery_lines_of(item), name) == one(battery_sample(item, name)),
        kinds(battery_lines_of(item), name) == Seq::<Seq<char>>::empty(),
{
    lemma_names();
    lemma_keys();
    lemma_nothing(name);
    lemma_two_labels("battery"@, item.battery, "status"@, item.status);
    let pairs = seq![("battery"@, item.battery), ("status"@, item.status)];
    assert(all_named(pairs));
    let labels = label_list(pairs);
    let t0 = Seq::<char>::empty();
    lemma_sample_next(t0, "bbtop_battery_power_watts"@, pairs, item.watts.millionths, name);
    let t1 = t0 + sample_of("bbtop_battery_power_watts"@, labels, item.watts.millionths);
    if let Some(charge) = item.charge_percent {
        lemma_sample_next(
            t1,
            "bbtop_battery_charge_percent"@,
            pairs,
            charge.thousandths,
            name,
        );
        let t2 = t1 + sample_of("bbtop_battery_charge_percent"@, labels, charge.thousandths);
        assert(battery_lines_of(item) =~= t2);
    } else {
        assert(battery_lines_of(item) =~= t1);
    }
}

spec fn battery_names(name: Seq<char>) -> bool {
    ||| name == "bbtop_battery_power_watts"@
    ||| name == "bbtop_laptop_power_estimate_watts"@
    ||| name == "bbtop_battery_charge_percent"@
}

proof fn lemma_batteries(items: Seq<BatteryPowerView>, sum: FigureView, name: Seq<char>)
    requires
        forall|i: int| 0 <= i < items.len() ==> printable_battery(#[trigger] items[i]),
        unbroken(sum.millionths),
    ensures
        complete(batteries_of(items, sum)),
        name != "bbtop_laptop_power_estimate_watts"@ ==> samples(batteries_of(items, sum), name)
            == kept(items, |item: BatteryPowerView| battery_sample(item, name)),
        name == "bbtop_laptop_power_estimate_watts"@ ==> samples(batteries_of(items, sum), name)
            == match estimate(items, sum) {
            Some(watts) => seq![
                Sampled { labels: seq![("source"@, "battery"@)], value: watts.millionths },
            ],
            None => Seq::empty(),
        },
        !battery_names(name) ==> samples(batteries_of(items, sum), name) == Seq::<
            Sampled,
        >::empty(),
        kinds(batteries_of(items, sum), name) == if battery_names(name) {
            seq![kind_of(name)]
        } else {
            Seq::empty()
        },
{
    reveal(batteries_of);
    lemma_names();
    lemma_kinds();
    lemma_keys();
    lemma_helps();
    let a = gauge_of("bbtop_battery_power_watts"@, "Electrical power flowing through the battery"@);
    let b = gauge_of(
        "bbtop_laptop_power_estimate_watts"@,
        "Estimated whole-laptop draw while discharging"@,
    );
    let c = gauge_of("bbtop_battery_charge_percent"@, "Battery state of charge in percent"@);
    lemma_gauge(
        "bbtop_battery_power_watts"@,
        "Electrical power flowing through the battery"@,
        name,
    );
    lemma_gauge(
        "bbtop_laptop_power_estimate_watts"@,
        "Estimated whole-laptop draw while discharging"@,
        name,
    );
    lemma_gauge("bbtop_battery_charge_percent"@, "Battery state of charge in percent"@, name);
    let lines = |item: BatteryPowerView| battery_lines_of(item);
    let read = |item: BatteryPowerView| battery_sample(item, name);
    assert forall|i: int| 0 <= i < items.len() implies {
        &&& complete(lines(#[trigger] items[i]))
        &&& samples(lines(items[i]), name) == one(read(items[i]))
        &&& kinds(lines(items[i]), name) == Seq::<Seq<char>>::empty()
    } by {
        lemma_battery_lines(items[i], name);
    }
    lemma_joined(items, lines, read, name);
    let rows = joined(items.map_values(lines));
    lemma_part(a, b, name);
    lemma_part(a + b, c, name);
    lemma_part(a + b + c, rows, name);
    let listed = a + b + c + rows;
    if name == "bbtop_laptop_power_estimate_watts"@ || !battery_names(name) {
        lemma_kept_empty(items, read);
    }
    if let Some(watts) = estimate(items, sum) {
        lemma_source();
        let pairs = seq![("source"@, "battery"@)];
        assert(all_named(pairs));
        lemma_estimate_figure(items, sum);
        lemma_sample("bbtop_laptop_power_estimate_watts"@, pairs, watts.millionths, name);
        let last = sample_of(
            "bbtop_laptop_power_estimate_watts"@,
            "source=\"battery\""@,
            watts.millionths,
        );
        lemma_part(listed, last, name);
        assert(batteries_of(items, sum) =~= listed + last);
    } else {
        assert(batteries_of(items, sum) =~= listed);
    }
}

proof fn lemma_source()
    ensures
        "source=\"battery\""@ == label_list(seq![("source"@, "battery"@)]),
{
    reveal_strlit("source=\"battery\"");
    reveal_strlit("source");
    reveal_strlit("battery");
    reveal_strlit("=\"");
    reveal_strlit("\"");
    lemma_one_label("source"@, "battery"@);
    lemma_bare_label("source"@, "battery"@);
    assert("source=\"battery\""@ =~= crate::metrics::bare_label_of("source"@, "battery"@));
}

proof fn lemma_estimate_figure(items: Seq<BatteryPowerView>, sum: FigureView)
    requires
        forall|i: int| 0 <= i < items.len() ==> printable_battery(#[trigger] items[i]),
        unbroken(sum.millionths),
        estimate(items, sum) is Some,
    ensures
        unbroken(estimate(items, sum)->0.millionths),
{
    let found = discharges(items);
    if found.len() == 1 {
        let f = |battery: BatteryPowerView|
            if discharging(battery) {
                Some(battery.watts)
            } else {
                None
            };
        let i = lemma_kept_source(items, f, 0);
        assert(printable_battery(items[i]));
    }
}

proof fn lemma_info(hostname: Seq<char>, name: Seq<char>)
    ensures
        ({
            let part = gauge_of("bbtop_info"@, "Host identity"@) + sample_of(
                "bbtop_info"@,
                label_of("hostname"@, hostname),
                "1"@,
            );
            &&& complete(part)
            &&& samples(part, name) == if name == "bbtop_info"@ {
                seq![Sampled { labels: seq![("hostname"@, hostname)], value: "1"@ }]
            } else {
                Seq::empty()
            }
            &&& kinds(part, name) == if name == "bbtop_info"@ {
                seq![kind_of(name)]
            } else {
                Seq::empty()
            }
        }),
{
    lemma_names();
    lemma_kinds();
    lemma_keys();
    lemma_helps();
    reveal_strlit("1");
    lemma_gauge("bbtop_info"@, "Host identity"@, name);
    lemma_one_label("hostname"@, hostname);
    let pairs = seq![("hostname"@, hostname)];
    assert(all_named(pairs));
    lemma_sample("bbtop_info"@, pairs, "1"@, name);
    lemma_part(
        gauge_of("bbtop_info"@, "Host identity"@),
        sample_of("bbtop_info"@, label_of("hostname"@, hostname), "1"@),
        name,
    );
}

/// Whether what is printed of a process is in one piece, and its state a character
/// that a label holds as it is.
pub open spec fn printable_process(item: ProcessView) -> bool {
    &&& unbroken(item.cpu_percent.thousandths)
    &&& unbroken(item.gpu_percent.thousandths)
    &&& unescapable(seq![item.state])
}

spec fn process_sample(item: ProcessView, name: Seq<char>) -> Option<Sampled> {
    let labels = seq![("pid"@, decimal(item.pid as nat)), ("name"@, item.name)];
    if name == "bbtop_process_cpu_usage_percent"@ {
        Some(Sampled { labels, value: item.cpu_percent.thousandths })
    } else if name == "bbtop_process_resident_memory_bytes"@ {
        Some(Sampled { labels, value: decimal(item.rss_bytes as nat) })
    } else if name == "bbtop_process_virtual_memory_bytes"@ {
        Some(Sampled { labels, value: decimal(item.virtual_bytes as nat) })
    } else if name == "bbtop_process_threads"@ {
        Some(Sampled { labels, value: decimal(item.threads as nat) })
    } else if name == "bbtop_process_state"@ {
        Some(
            Sampled {
                labels: seq![
                    ("pid"@, decimal(item.pid as nat)),
                    ("name"@, item.name),
                    ("state"@, seq![item.state]),
                ],
                value: "1"@,
            },
        )
    } else if name == "bbtop_process_read_bytes_total"@ {
        Some(Sampled { labels, value: decimal(item.read_bytes as nat) })
    } else if name == "bbtop_process_write_bytes_total"@ {
        Some(Sampled { labels, value: decimal(item.write_bytes as nat) })
    } else if name == "bbtop_process_network_receive_bytes_total"@ {
        Some(Sampled { labels, value: decimal(item.network_receive_bytes as nat) })
    } else if name == "bbtop_process_network_transmit_bytes_total"@ {
        Some(Sampled { labels, value: decimal(item.network_transmit_bytes as nat) })
    } else if name == "bbtop_process_gpu_usage_percent"@ {
        Some(Sampled { labels, value: item.gpu_percent.thousandths })
    } else if name == "bbtop_process_gpu_vram_bytes"@ {
        Some(Sampled { labels, value: decimal(item.gpu_vram_bytes as nat) })
    } else {
        None
    }
}

proof fn lemma_process_lines(item: ProcessView, name: Seq<char>)
    requires
        printable_process(item),
    ensures
        complete(process_lines_of(item)),
        samples(process_lines_of(item), name) == one(process_sample(item, name)),
        kinds(process_lines_of(item), name) == Seq::<Seq<char>>::empty(),
{
    lemma_names();
    lemma_keys();
    lemma_decimal_unbroken(item.pid as nat);
    lemma_bare_label("pid"@, decimal(item.pid as nat));
    lemma_two_labels("pid"@, decimal(item.pid as nat), "name"@, item.name);
    let pairs = seq![("pid"@, decimal(item.pid as nat)), ("name"@, item.name)];
    assert(all_named(pairs));
    let labels = label_list(pairs);
    lemma_bare_label("state"@, seq![item.state]);
    lemma_three_labels(
        ("pid"@, decimal(item.pid as nat)),
        ("name"@, item.name),
        ("state"@, seq![item.state]),
    );
    let stated = seq![
        ("pid"@, decimal(item.pid as nat)),
        ("name"@, item.name),
        ("state"@, seq![item.state]),
    ];
    assert(all_named(stated));
    reveal_strlit("1");
    lemma_nothing(name);
    let t0 = Seq::<char>::empty();
    lemma_sample_next(t0, "bbtop_process_cpu_usage_percent"@, pairs, item.cpu_percent.thousandths,
        name);
    let t1 = t0 + sample_of("bbtop_process_cpu_usage_percent"@, labels,
        item.cpu_percent.thousandths);
    lemma_decimal_unbroken(item.rss_bytes as nat);
    lemma_sample_next(t1, "bbtop_process_resident_memory_bytes"@, pairs,
        decimal(item.rss_bytes as nat), name);
    let t2 = t1 + sample_of("bbtop_process_resident_memory_bytes"@, labels,
        decimal(item.rss_bytes as nat));
    lemma_decimal_unbroken(item.virtual_bytes as nat);
    lemma_sample_next(t2, "bbtop_process_virtual_memory_bytes"@, pairs,
        decimal(item.virtual_bytes as nat), name);
    let t3 = t2 + sample_of("bbtop_process_virtual_memory_bytes"@, labels,
        decimal(item.virtual_bytes as nat));
    lemma_decimal_unbroken(item.threads as nat);
    lemma_sample_next(t3, "bbtop_process_threads"@, pairs, decimal(item.threads as nat), name);
    let t4 = t3 + sample_of("bbtop_process_threads"@, labels, decimal(item.threads as nat));
    lemma_sample_next(t4, "bbtop_process_state"@, stated, "1"@, name);
    let t5 = t4 + sample_of("bbtop_process_state"@, label_list(stated), "1"@);
    lemma_decimal_unbroken(item.read_bytes as nat);
    lemma_sample_next(t5, "bbtop_process_read_bytes_total"@, pairs, decimal(item.read_bytes as nat),
        name);
    let t6 = t5 + sample_of("bbtop_process_read_bytes_total"@, labels,
        decimal(item.read_bytes as nat));
    lemma_decimal_unbroken(item.write_bytes as nat);
    lemma_sample_next(t6, "bbtop_process_write_bytes_total"@, pairs,
        decimal(item.write_bytes as nat), name);
    let t7 = t6 + sample_of("bbtop_process_write_bytes_total"@, labels,
        decimal(item.write_bytes as nat));
    lemma_decimal_unbroken(item.network_receive_bytes as nat);
    lemma_sample_next(t7, "bbtop_process_network_receive_bytes_total"@, pairs,
        decimal(item.network_receive_bytes as nat), name);
    let t8 = t7 + sample_of("bbtop_process_network_receive_bytes_total"@, labels,
        decimal(item.network_receive_bytes as nat));
    lemma_decimal_unbroken(item.network_transmit_bytes as nat);
    lemma_sample_next(t8, "bbtop_process_network_transmit_bytes_total"@, pairs,
        decimal(item.network_transmit_bytes as nat), name);
    let t9 = t8 + sample_of("bbtop_process_network_transmit_bytes_total"@, labels,
        decimal(item.network_transmit_bytes as nat));
    lemma_sample_next(t9, "bbtop_process_gpu_usage_percent"@, pairs, item.gpu_percent.thousandths,
        name);
    let t10 = t9 + sample_of("bbtop_process_gpu_usage_percent"@, labels,
        item.gpu_percent.thousandths);
    lemma_decimal_unbroken(item.gpu_vram_bytes as nat);
    lemma_sample_next(t10, "bbtop_process_gpu_vram_bytes"@, pairs,
        decimal(item.gpu_vram_bytes as nat), name);
    let t11 = t10 + sample_of("bbtop_process_gpu_vram_bytes"@, labels,
        decimal(item.gpu_vram_bytes as nat));
    assert(process_lines_of(item) =~= t11);
}

spec fn process_names(name: Seq<char>) -> bool {
    ||| name == "bbtop_process_cpu_usage_percent"@
    ||| name == "bbtop_process_resident_memory_bytes"@
    ||| name == "bbtop_process_virtual_memory_bytes"@
    ||| name == "bbtop_process_threads"@
    ||| name == "bbtop_process_state"@
    ||| name == "bbtop_process_read_bytes_total"@
    ||| name == "bbtop_process_write_bytes_total"@
    ||| name == "bbtop_process_network_receive_bytes_total"@
    ||| name == "bbtop_process_network_transmit_bytes_total"@
    ||| name == "bbtop_process_gpu_usage_percent"@
    ||| name == "bbtop_process_gpu_vram_bytes"@
}

proof fn lemma_process_types(name: Seq<char>)
    ensures
        complete(process_types_of()),
        samples(process_types_of(), name) == Seq::<Sampled>::empty(),
        kinds(process_types_of(), name) == if process_names(name) {
            seq![kind_of(name)]
        } else {
            Seq::empty()
        },
{
    reveal(process_types_of);
    lemma_names();
    lemma_kinds();
    lemma_keys();
    lemma_nothing(name);
    let t0 = Seq::<char>::empty();
    lemma_type("bbtop_process_cpu_usage_percent"@, kind_of("bbtop_process_cpu_usage_percent"@),
        name);
    lemma_part(t0, series_of("bbtop_process_cpu_usage_percent"@), name);
    let t1 = t0 + series_of("bbtop_process_cpu_usage_percent"@);
    lemma_type("bbtop_process_resident_memory_bytes"@,
        kind_of("bbtop_process_resident_memory_bytes"@), name);
    lemma_part(t1, series_of("bbtop_process_resident_memory_bytes"@), name);
    let t2 = t1 + series_of("bbtop_process_resident_memory_bytes"@);
    lemma_type("bbtop_process_virtual_memory_bytes"@,
        kind_of("bbtop_process_virtual_memory_bytes"@), name);
    lemma_part(t2, series_of("bbtop_process_virtual_memory_bytes"@), name);
    let t3 = t2 + series_of("bbtop_process_virtual_memory_bytes"@);
    lemma_type("bbtop_process_threads"@, kind_of("bbtop_process_threads"@), name);
    lemma_part(t3, series_of("bbtop_process_threads"@), name);
    let t4 = t3 + series_of("bbtop_process_threads"@);
    lemma_type("bbtop_process_state"@, kind_of("bbtop_process_state"@), name);
    lemma_part(t4, series_of("bbtop_process_state"@), name);
    let t5 = t4 + series_of("bbtop_process_state"@);
    lemma_type("bbtop_process_read_bytes_total"@, kind_of("bbtop_process_read_bytes_total"@), name);
    lemma_part(t5, series_of("bbtop_process_read_bytes_total"@), name);
    let t6 = t5 + series_of("bbtop_process_read_bytes_total"@);
    lemma_type("bbtop_process_write_bytes_total"@, kind_of("bbtop_process_write_bytes_total"@),
        name);
    lemma_part(t6, series_of("bbtop_process_write_bytes_total"@), name);
    let t7 = t6 + series_of("bbtop_process_write_bytes_total"@);
    lemma_type("bbtop_process_network_receive_bytes_total"@,
        kind_of("bbtop_process_network_receive_bytes_total"@), name);
    lemma_part(t7, series_of("bbtop_process_network_receive_bytes_total"@), name);
    let t8 = t7 + series_of("bbtop_process_network_receive_bytes_total"@);
    lemma_type("bbtop_process_network_transmit_bytes_total"@,
        kind_of("bbtop_process_network_transmit_bytes_total"@), name);
    lemma_part(t8, series_of("bbtop_process_network_transmit_bytes_total"@), name);
    let t9 = t8 + series_of("bbtop_process_network_transmit_bytes_total"@);
    lemma_type("bbtop_process_gpu_usage_percent"@, kind_of("bbtop_process_gpu_usage_percent"@),
        name);
    lemma_part(t9, series_of("bbtop_process_gpu_usage_percent"@), name);
    let t10 = t9 + series_of("bbtop_process_gpu_usage_percent"@);
    lemma_type("bbtop_process_gpu_vram_bytes"@, kind_of("bbtop_process_gpu_vram_bytes"@), name);
    lemma_part(t10, series_of("bbtop_process_gpu_vram_bytes"@), name);
    let t11 = t10 + series_of("bbtop_process_gpu_vram_bytes"@);
    assert(process_types_of() =~= t11);
}

proof fn lemma_processes(items: Seq<ProcessView>, limit: nat, name: Seq<char>)
    requires
        forall|i: int| 0 <= i < items.len() ==> printable_process(#[trigger] items[i]),
    ensures
        complete(processes_of(items, limit)),
        samples(processes_of(items, limit), name) == kept(
            selection(items, limit),
            |i: int| process_sample(items[i], name),
        ),
        !process_names(name) ==> samples(processes_of(items, limit), name) == Seq::<
            Sampled,
        >::empty(),
        kinds(processes_of(items, limit), name) == Seq::<Seq<char>>::empty(),
{
    reveal(processes_of);
    let chosen = selection(items, limit);
    law_selection_is_bounded(items, limit);
    let lines = |i: int| process_lines_of(items[i]);
    let read = |i: int| process_sample(items[i], name);
    assert forall|k: int| 0 <= k < chosen.len() implies {
        &&& complete(lines(#[trigger] chosen[k]))
        &&& samples(lines(chosen[k]), name) == one(read(chosen[k]))
        &&& kinds(lines(chosen[k]), name) == Seq::<Seq<char>>::empty()
    } by {
        lemma_process_lines(items[chosen[k]], name);
    }
    lemma_joined(chosen, lines, read, name);
    if !process_names(name) {
        lemma_kept_empty(chosen, read);
    }
    assert(chosen.map_values(lines) =~= chosen.map_values(|i: int| process_lines_of(items[i])));
}

/// Which part of an exposition a metric stands in, counted from one; none for other
/// names.
#[verifier::opaque]
spec fn part_of(name: Seq<char>) -> int {
    if name == "bbtop_cpu_usage_percent"@ || name == "bbtop_cpu_logical_count"@ || name
        == "bbtop_memory_total_bytes"@ || name == "bbtop_memory_available_bytes"@ || name
        == "bbtop_swap_total_bytes"@ || name == "bbtop_swap_free_bytes"@ || name == "bbtop_load1"@
        || name == "bbtop_load5"@ || name == "bbtop_load15"@ || name == "bbtop_uptime_seconds"@ {
        1
    } else if name == "bbtop_network_receive_bytes_total"@ || name
        == "bbtop_network_transmit_bytes_total"@ {
        2
    } else if name == "bbtop_disk_read_bytes_total"@ || name == "bbtop_disk_write_bytes_total"@
        || name == "bbtop_processes"@ || name == "bbtop_processes_running"@ || name
        == "bbtop_last_collection_timestamp_seconds"@ {
        3
    } else if name == "bbtop_fans_detected"@ {
        4
    } else if name == "bbtop_fan_speed_rpm"@ {
        5
    } else if name == "bbtop_temperatures_detected"@ {
        6
    } else if name == "bbtop_temperature_celsius"@ {
        7
    } else if name == "bbtop_power_sensors_detected"@ {
        8
    } else if name == "bbtop_power_watts"@ {
        9
    } else if name == "bbtop_battery_power_watts"@ || name == "bbtop_laptop_power_estimate_watts"@
        || name == "bbtop_battery_charge_percent"@ {
        10
    } else if name == "bbtop_voltage_volts"@ {
        11
    } else if name == "bbtop_current_amperes"@ {
        12
    } else if name == "bbtop_temperature_limit_celsius"@ {
        13
    } else if name == "bbtop_temperature_alarm"@ {
        14
    } else if name == "bbtop_cpu_frequency_hertz"@ {
        15
    } else if name == "bbtop_mains_online"@ {
        16
    } else if name == "bbtop_nvme_percentage_used"@ || name == "bbtop_nvme_available_spare_percent"@
        || name == "bbtop_nvme_available_spare_threshold_percent"@ || name
        == "bbtop_nvme_critical_warning"@ || name == "bbtop_nvme_data_read_bytes_total"@ || name
        == "bbtop_nvme_data_written_bytes_total"@ || name == "bbtop_nvme_power_cycles_total"@
        || name == "bbtop_nvme_power_on_hours_total"@ || name
        == "bbtop_nvme_unsafe_shutdowns_total"@ || name == "bbtop_nvme_media_errors_total"@ || name
        == "bbtop_nvme_error_log_entries_total"@ {
        17
    } else if name == "bbtop_gpu_busy_percent"@ || name == "bbtop_gpu_vram_used_bytes"@ || name
        == "bbtop_gpu_vram_total_bytes"@ {
        18
    } else if name == "bbtop_filesystem_size_bytes"@ || name == "bbtop_filesystem_available_bytes"@
        || name == "bbtop_filesystem_used_bytes"@ {
        19
    } else if name == "bbtop_info"@ {
        20
    } else if name == "bbtop_process_cpu_usage_percent"@ || name
        == "bbtop_process_resident_memory_bytes"@ || name == "bbtop_process_virtual_memory_bytes"@
        || name == "bbtop_process_threads"@ || name == "bbtop_process_state"@ || name
        == "bbtop_process_read_bytes_total"@ || name == "bbtop_process_write_bytes_total"@ || name
        == "bbtop_process_network_receive_bytes_total"@ || name
        == "bbtop_process_network_transmit_bytes_total"@ || name
        == "bbtop_process_gpu_usage_percent"@ || name == "bbtop_process_gpu_vram_bytes"@ {
        21
    } else {
        0
    }
}

/// A name stands in one part only.
proof fn lemma_parts(name: Seq<char>)
    ensures
        (name == "bbtop_cpu_usage_percent"@ || name == "bbtop_cpu_logical_count"@ || name
            == "bbtop_memory_total_bytes"@ || name == "bbtop_memory_available_bytes"@ || name
            == "bbtop_swap_total_bytes"@ || name == "bbtop_swap_free_bytes"@ || name
            == "bbtop_load1"@ || name == "bbtop_load5"@ || name == "bbtop_load15"@ || name
            == "bbtop_uptime_seconds"@) == (part_of(name) == 1),
        (name == "bbtop_network_receive_bytes_total"@ || name
            == "bbtop_network_transmit_bytes_total"@) == (part_of(name) == 2),
        (name == "bbtop_disk_read_bytes_total"@ || name == "bbtop_disk_write_bytes_total"@ || name
            == "bbtop_processes"@ || name == "bbtop_processes_running"@ || name
            == "bbtop_last_collection_timestamp_seconds"@) == (part_of(name) == 3),
        (name == "bbtop_fans_detected"@) == (part_of(name) == 4),
        (name == "bbtop_fan_speed_rpm"@) == (part_of(name) == 5),
        (name == "bbtop_temperatures_detected"@) == (part_of(name) == 6),
        (name == "bbtop_temperature_celsius"@) == (part_of(name) == 7),
        (name == "bbtop_power_sensors_detected"@) == (part_of(name) == 8),
        (name == "bbtop_power_watts"@) == (part_of(name) == 9),
        (name == "bbtop_battery_power_watts"@ || name == "bbtop_laptop_power_estimate_watts"@
            || name == "bbtop_battery_charge_percent"@) == (part_of(name) == 10),
        (name == "bbtop_voltage_volts"@) == (part_of(name) == 11),
        (name == "bbtop_current_amperes"@) == (part_of(name) == 12),
        (name == "bbtop_temperature_limit_celsius"@) == (part_of(name) == 13),
        (name == "bbtop_temperature_alarm"@) == (part_of(name) == 14),
        (name == "bbtop_cpu_frequency_hertz"@) == (part_of(name) == 15),
        (name == "bbtop_mains_online"@) == (part_of(name) == 16),
        (name == "bbtop_nvme_percentage_used"@ || name == "bbtop_nvme_available_spare_percent"@
            || name == "bbtop_nvme_available_spare_threshold_percent"@ || name
            == "bbtop_nvme_critical_warning"@ || name == "bbtop_nvme_data_read_bytes_total"@ || name
            == "bbtop_nvme_data_written_bytes_total"@ || name == "bbtop_nvme_power_cycles_total"@
            || name == "bbtop_nvme_power_on_hours_total"@ || name
            == "bbtop_nvme_unsafe_shutdowns_total"@ || name == "bbtop_nvme_media_errors_total"@
            || name == "bbtop_nvme_error_log_entries_total"@) == (part_of(name) == 17),
        (name == "bbtop_gpu_busy_percent"@ || name == "bbtop_gpu_vram_used_bytes"@ || name
            == "bbtop_gpu_vram_total_bytes"@) == (part_of(name) == 18),
        (name == "bbtop_filesystem_size_bytes"@ || name == "bbtop_filesystem_available_bytes"@
            || name == "bbtop_filesystem_used_bytes"@) == (part_of(name) == 19),
        (name == "bbtop_info"@) == (part_of(name) == 20),
        (name == "bbtop_process_cpu_usage_percent"@ || name
            == "bbtop_process_resident_memory_bytes"@ || name
            == "bbtop_process_virtual_memory_bytes"@ || name == "bbtop_process_threads"@ || name
            == "bbtop_process_state"@ || name == "bbtop_process_read_bytes_total"@ || name
            == "bbtop_process_write_bytes_total"@ || name
            == "bbtop_process_network_receive_bytes_total"@ || name
            == "bbtop_process_network_transmit_bytes_total"@ || name
            == "bbtop_process_gpu_usage_percent"@ || name == "bbtop_process_gpu_vram_bytes"@)
            == (part_of(name) == 21),
        0 <= part_of(name) <= 21,
{
    reveal(part_of);
    lemma_names();
}

proof fn lemma_places()
    ensures
        part_of("bbtop_cpu_usage_percent"@) == 1,
        part_of("bbtop_cpu_logical_count"@) == 1,
        part_of("bbtop_memory_total_bytes"@) == 1,
        part_of("bbtop_memory_available_bytes"@) == 1,
        part_of("bbtop_swap_total_bytes"@) == 1,
        part_of("bbtop_swap_free_bytes"@) == 1,
        part_of("bbtop_load1"@) == 1,
        part_of("bbtop_load5"@) == 1,
        part_of("bbtop_load15"@) == 1,
        part_of("bbtop_uptime_seconds"@) == 1,
        part_of("bbtop_network_receive_bytes_total"@) == 2,
        part_of("bbtop_network_transmit_bytes_total"@) == 2,
        part_of("bbtop_disk_read_bytes_total"@) == 3,
        part_of("bbtop_disk_write_bytes_total"@) == 3,
        part_of("bbtop_processes"@) == 3,
        part_of("bbtop_processes_running"@) == 3,
        part_of("bbtop_last_collection_timestamp_seconds"@) == 3,
        part_of("bbtop_fans_detected"@) == 4,
        part_of("bbtop_fan_speed_rpm"@) == 5,
        part_of("bbtop_temperatures_detected"@) == 6,
        part_of("bbtop_temperature_celsius"@) == 7,
        part_of("bbtop_power_sensors_detected"@) == 8,
        part_of("bbtop_power_watts"@) == 9,
        part_of("bbtop_battery_power_watts"@) == 10,
        part_of("bbtop_laptop_power_estimate_watts"@) == 10,
        part_of("bbtop_battery_charge_percent"@) == 10,
        part_of("bbtop_voltage_volts"@) == 11,
        part_of("bbtop_current_amperes"@) == 12,
        part_of("bbtop_temperature_limit_celsius"@) == 13,
        part_of("bbtop_temperature_alarm"@) == 14,
        part_of("bbtop_cpu_frequency_hertz"@) == 15,
        part_of("bbtop_mains_online"@) == 16,
        part_of("bbtop_nvme_percentage_used"@) == 17,
        part_of("bbtop_nvme_available_spare_percent"@) == 17,
        part_of("bbtop_nvme_available_spare_threshold_percent"@) == 17,
        part_of("bbtop_nvme_critical_warning"@) == 17,
        part_of("bbtop_nvme_data_read_bytes_total"@) == 17,
        part_of("bbtop_nvme_data_written_bytes_total"@) == 17,
        part_of("bbtop_nvme_power_cycles_total"@) == 17,
        part_of("bbtop_nvme_power_on_hours_total"@) == 17,
        part_of("bbtop_nvme_unsafe_shutdowns_total"@) == 17,
        part_of("bbtop_nvme_media_errors_total"@) == 17,
        part_of("bbtop_nvme_error_log_entries_total"@) == 17,
        part_of("bbtop_gpu_busy_percent"@) == 18,
        part_of("bbtop_gpu_vram_used_bytes"@) == 18,
        part_of("bbtop_gpu_vram_total_bytes"@) == 18,
        part_of("bbtop_filesystem_size_bytes"@) == 19,
        part_of("bbtop_filesystem_available_bytes"@) == 19,
        part_of("bbtop_filesystem_used_bytes"@) == 19,
        part_of("bbtop_info"@) == 20,
        part_of("bbtop_process_cpu_usage_percent"@) == 21,
        part_of("bbtop_process_resident_memory_bytes"@) == 21,
        part_of("bbtop_process_virtual_memory_bytes"@) == 21,
        part_of("bbtop_process_threads"@) == 21,
        part_of("bbtop_process_state"@) == 21,
        part_of("bbtop_process_read_bytes_total"@) == 21,
        part_of("bbtop_process_write_bytes_total"@) == 21,
        part_of("bbtop_process_network_receive_bytes_total"@) == 21,
        part_of("bbtop_process_network_transmit_bytes_total"@) == 21,
        part_of("bbtop_process_gpu_usage_percent"@) == 21,
        part_of("bbtop_process_gpu_vram_bytes"@) == 21,
{
    lemma_parts("bbtop_cpu_usage_percent"@);
    lemma_parts("bbtop_cpu_logical_count"@);
    lemma_parts("bbtop_memory_total_bytes"@);
    lemma_parts("bbtop_memory_available_bytes"@);
    lemma_parts("bbtop_swap_total_bytes"@);
    lemma_parts("bbtop_swap_free_bytes"@);
    lemma_parts("bbtop_load1"@);
    lemma_parts("bbtop_load5"@);
    lemma_parts("bbtop_load15"@);
    lemma_parts("bbtop_uptime_seconds"@);
    lemma_parts("bbtop_network_receive_bytes_total"@);
    lemma_parts("bbtop_network_transmit_bytes_total"@);
    lemma_parts("bbtop_disk_read_bytes_total"@);
    lemma_parts("bbtop_disk_write_bytes_total"@);
    lemma_parts("bbtop_processes"@);
    lemma_parts("bbtop_processes_running"@);
    lemma_parts("bbtop_last_collection_timestamp_seconds"@);
    lemma_parts("bbtop_fans_detected"@);
    lemma_parts("bbtop_fan_speed_rpm"@);
    lemma_parts("bbtop_temperatures_detected"@);
    lemma_parts("bbtop_temperature_celsius"@);
    lemma_parts("bbtop_power_sensors_detected"@);
    lemma_parts("bbtop_power_watts"@);
    lemma_parts("bbtop_battery_power_watts"@);
    lemma_parts("bbtop_laptop_power_estimate_watts"@);
    lemma_parts("bbtop_battery_charge_percent"@);
    lemma_parts("bbtop_voltage_volts"@);
    lemma_parts("bbtop_current_amperes"@);
    lemma_parts("bbtop_temperature_limit_celsius"@);
    lemma_parts("bbtop_temperature_alarm"@);
    lemma_parts("bbtop_cpu_frequency_hertz"@);
    lemma_parts("bbtop_mains_online"@);
    lemma_parts("bbtop_nvme_percentage_used"@);
    lemma_parts("bbtop_nvme_available_spare_percent"@);
    lemma_parts("bbtop_nvme_available_spare_threshold_percent"@);
    lemma_parts("bbtop_nvme_critical_warning"@);
    lemma_parts("bbtop_nvme_data_read_bytes_total"@);
    lemma_parts("bbtop_nvme_data_written_bytes_total"@);
    lemma_parts("bbtop_nvme_power_cycles_total"@);
    lemma_parts("bbtop_nvme_power_on_hours_total"@);
    lemma_parts("bbtop_nvme_unsafe_shutdowns_total"@);
    lemma_parts("bbtop_nvme_media_errors_total"@);
    lemma_parts("bbtop_nvme_error_log_entries_total"@);
    lemma_parts("bbtop_gpu_busy_percent"@);
    lemma_parts("bbtop_gpu_vram_used_bytes"@);
    lemma_parts("bbtop_gpu_vram_total_bytes"@);
    lemma_parts("bbtop_filesystem_size_bytes"@);
    lemma_parts("bbtop_filesystem_available_bytes"@);
    lemma_parts("bbtop_filesystem_used_bytes"@);
    lemma_parts("bbtop_info"@);
    lemma_parts("bbtop_process_cpu_usage_percent"@);
    lemma_parts("bbtop_process_resident_memory_bytes"@);
    lemma_parts("bbtop_process_virtual_memory_bytes"@);
    lemma_parts("bbtop_process_threads"@);
    lemma_parts("bbtop_process_state"@);
    lemma_parts("bbtop_process_read_bytes_total"@);
    lemma_parts("bbtop_process_write_bytes_total"@);
    lemma_parts("bbtop_process_network_receive_bytes_total"@);
    lemma_parts("bbtop_process_network_transmit_bytes_total"@);
    lemma_parts("bbtop_process_gpu_usage_percent"@);
    lemma_parts("bbtop_process_gpu_vram_bytes"@);
}

/// Whether what is printed of a snapshot without being escaped is in one piece: the
/// figures hold no white space, and the kinds of the interfaces and the states of the
/// processes hold nothing that a label escapes.
pub open spec fn printable(snapshot: Snapshot) -> bool {
    &&& unbroken(snapshot.cpu_percent.shortest@)
    &&& unbroken(snapshot.load@[0].shortest@)
    &&& unbroken(snapshot.load@[1].shortest@)
    &&& unbroken(snapshot.load@[2].shortest@)
    &&& unbroken(snapshot.uptime.shortest@)
    &&& unbroken(snapshot.discharge_watts.millionths@)
    &&& forall|i: int|
        0 <= i < snapshot.networks@.len() ==> unescapable(
            (#[trigger] views(snapshot.networks@)[i]).kind,
        )
    &&& forall|i: int|
        0 <= i < snapshot.temperatures@.len() ==> unbroken(
            (#[trigger] views(snapshot.temperatures@)[i]).celsius.thousandths,
        )
    &&& forall|i: int|
        0 <= i < snapshot.power@.len() ==> unbroken(
            (#[trigger] views(snapshot.power@)[i]).watts.millionths,
        )
    &&& forall|i: int|
        0 <= i < snapshot.battery_power@.len() ==> printable_battery(
            #[trigger] views(snapshot.battery_power@)[i],
        )
    &&& forall|i: int|
        0 <= i < snapshot.voltages@.len() ==> unbroken(
            (#[trigger] views(snapshot.voltages@)[i]).value.millionths,
        )
    &&& forall|i: int|
        0 <= i < snapshot.currents@.len() ==> unbroken(
            (#[trigger] views(snapshot.currents@)[i]).value.millionths,
        )
    &&& forall|i: int|
        0 <= i < snapshot.temperature_limits@.len() ==> unbroken(
            (#[trigger] views(snapshot.temperature_limits@)[i]).celsius.thousandths,
        )
    &&& forall|i: int|
        0 <= i < snapshot.gpus@.len() ==> unbroken(
            (#[trigger] views(snapshot.gpus@)[i]).busy_percent.thousandths,
        )
    &&& forall|i: int|
        0 <= i < snapshot.processes@.len() ==> printable_process(
            #[trigger] views(snapshot.processes@)[i],
        )
}

/// The parts of an exposition, counted from one.
#[verifier::opaque]
spec fn part_text(snapshot: Snapshot, limit: nat, k: int) -> Seq<char> {
    if k == 1 {
        host_of(snapshot)
    } else if k == 2 {
        networks_of(views(snapshot.networks@))
    } else if k == 3 {
        activity_of(snapshot)
    } else if k == 4 {
        metric_of("bbtop_fans_detected"@, "gauge"@, decimal(snapshot.fans@.len()))
    } else if k == 5 {
        fans_of(views(snapshot.fans@))
    } else if k == 6 {
        metric_of("bbtop_temperatures_detected"@, "gauge"@, decimal(snapshot.temperatures@.len()))
    } else if k == 7 {
        temperatures_of(views(snapshot.temperatures@))
    } else if k == 8 {
        metric_of("bbtop_power_sensors_detected"@, "gauge"@, decimal(snapshot.power@.len()))
    } else if k == 9 {
        powers_of(views(snapshot.power@))
    } else if k == 10 {
        batteries_of(views(snapshot.battery_power@), snapshot.discharge_watts@)
    } else if k == 11 {
        readings_of("bbtop_voltage_volts"@, "Voltage reported by Linux hwmon"@,
            views(snapshot.voltages@))
    } else if k == 12 {
        readings_of("bbtop_current_amperes"@, "Current reported by Linux hwmon"@,
            views(snapshot.currents@))
    } else if k == 13 {
        limits_of(views(snapshot.temperature_limits@))
    } else if k == 14 {
        alarms_of(views(snapshot.temperature_alarms@))
    } else if k == 15 {
        frequencies_of(views(snapshot.cpu_frequencies@))
    } else if k == 16 {
        supplies_of(views(snapshot.mains_supplies@))
    } else if k == 17 {
        nvme_of(views(snapshot.nvme_smart@))
    } else if k == 18 {
        gpus_of(views(snapshot.gpus@))
    } else if k == 19 {
        filesystems_of(views(snapshot.filesystems@))
    } else if k == 20 {
        gauge_of("bbtop_info"@, "Host identity"@)
            + sample_of("bbtop_info"@, label_of("hostname"@, snapshot.hostname@), "1"@)
    } else if k == 21 {
        process_types_of() + processes_of(views(snapshot.processes@), limit)
    } else {
        Seq::empty()
    }
}

proof fn lemma_part_host(snapshot: Snapshot, limit: nat, name: Seq<char>)
    requires
        printable(snapshot),
    ensures
        complete(part_text(snapshot, limit, 1)),
        name == "bbtop_cpu_usage_percent"@ ==> samples(part_text(snapshot, limit, 1), name) == seq![
            Sampled { labels: Seq::empty(), value: snapshot.cpu_percent.shortest@ },
        ],
        name == "bbtop_cpu_logical_count"@ ==> samples(part_text(snapshot, limit, 1), name) == seq![
            Sampled { labels: Seq::empty(), value: decimal(snapshot.cpu_count as nat) },
        ],
        name == "bbtop_memory_total_bytes"@ ==> samples(part_text(snapshot, limit, 1), name)
            == seq![
            Sampled { labels: Seq::empty(), value: decimal(snapshot.memory_total as nat) },
        ],
        name == "bbtop_memory_available_bytes"@ ==> samples(part_text(snapshot, limit, 1), name)
            == seq![
            Sampled { labels: Seq::empty(), value: decimal(snapshot.memory_available as nat) },
        ],
        name == "bbtop_swap_total_bytes"@ ==> samples(part_text(snapshot, limit, 1), name) == seq![
            Sampled { labels: Seq::empty(), value: decimal(snapshot.swap_total as nat) },
        ],
        name == "bbtop_swap_free_bytes"@ ==> samples(part_text(snapshot, limit, 1), name) == seq![
            Sampled { labels: Seq::empty(), value: decimal(snapshot.swap_free as nat) },
        ],
        name == "bbtop_load1"@ ==> samples(part_text(snapshot, limit, 1), name) == seq![
            Sampled { labels: Seq::empty(), value: snapshot.load@[0].shortest@ },
        ],
        name == "bbtop_load5"@ ==> samples(part_text(snapshot, limit, 1), name) == seq![
            Sampled { labels: Seq::empty(), value: snapshot.load@[1].shortest@ },
        ],
        name == "bbtop_load15"@ ==> samples(part_text(snapshot, limit, 1), name) == seq![
            Sampled { labels: Seq::empty(), value: snapshot.load@[2].shortest@ },
        ],
        name == "bbtop_uptime_seconds"@ ==> samples(part_text(snapshot, limit, 1), name) == seq![
            Sampled { labels: Seq::empty(), value: snapshot.uptime.shortest@ },
        ],
        part_of(name) != 1 ==> samples(part_text(snapshot, limit, 1), name) == Seq::<
            Sampled,
        >::empty(),
        kinds(part_text(snapshot, limit, 1), name) == if part_of(name) == 1 {
            seq![kind_of(name)]
        } else {
            Seq::empty()
        },
{
    reveal(part_text);
    lemma_parts(name);
    lemma_host(snapshot, name);
}

proof fn lemma_part_networks(snapshot: Snapshot, limit: nat, name: Seq<char>)
    requires
        printable(snapshot),
    ensures
        complete(part_text(snapshot, limit, 2)),
        samples(part_text(snapshot, limit, 2), name) == kept(
            views(snapshot.networks@),
            |item: NetworkInterfaceView| network_sample(item, name),
        ),
        part_of(name) != 2 ==> samples(part_text(snapshot, limit, 2), name) == Seq::<
            Sampled,
        >::empty(),
        kinds(part_text(snapshot, limit, 2), name) == if part_of(name) == 2 {
            seq![kind_of(name)]
        } else {
            Seq::empty()
        },
{
    reveal(part_text);
    lemma_parts(name);
    lemma_networks(views(snapshot.networks@), name);
}

proof fn lemma_part_activity(snapshot: Snapshot, limit: nat, name: Seq<char>)
    requires
        printable(snapshot),
    ensures
        complete(part_text(snapshot, limit, 3)),
        name == "bbtop_disk_read_bytes_total"@ ==> samples(part_text(snapshot, limit, 3), name)
            == seq![
            Sampled { labels: Seq::empty(), value: decimal(snapshot.disk_read_bytes as nat) },
        ],
        name == "bbtop_disk_write_bytes_total"@ ==> samples(part_text(snapshot, limit, 3), name)
            == seq![
            Sampled { labels: Seq::empty(), value: decimal(snapshot.disk_write_bytes as nat) },
        ],
        name == "bbtop_processes"@ ==> samples(part_text(snapshot, limit, 3), name) == seq![
            Sampled { labels: Seq::empty(), value: decimal(snapshot.processes_total as nat) },
        ],
        name == "bbtop_processes_running"@ ==> samples(part_text(snapshot, limit, 3), name) == seq![
            Sampled { labels: Seq::empty(), value: decimal(snapshot.processes_running as nat) },
        ],
        name == "bbtop_last_collection_timestamp_seconds"@
            ==> samples(part_text(snapshot, limit, 3), name) == seq![
            Sampled { labels: Seq::empty(), value: decimal(snapshot.timestamp as nat) },
        ],
        part_of(name) != 3 ==> samples(part_text(snapshot, limit, 3), name) == Seq::<
            Sampled,
        >::empty(),
        kinds(part_text(snapshot, limit, 3), name) == if part_of(name) == 3 {
            seq![kind_of(name)]
        } else {
            Seq::empty()
        },
{
    reveal(part_text);
    lemma_parts(name);
    lemma_activity(snapshot, name);
}

proof fn lemma_part_fan_count(snapshot: Snapshot, limit: nat, name: Seq<char>)
    requires
        printable(snapshot),
    ensures
        complete(part_text(snapshot, limit, 4)),
        name == "bbtop_fans_detected"@ ==> samples(part_text(snapshot, limit, 4), name) == seq![
            Sampled { labels: Seq::empty(), value: decimal(snapshot.fans@.len()) },
        ],
        part_of(name) != 4 ==> samples(part_text(snapshot, limit, 4), name) == Seq::<
            Sampled,
        >::empty(),
        kinds(part_text(snapshot, limit, 4), name) == if part_of(name) == 4 {
            seq![kind_of(name)]
        } else {
            Seq::empty()
        },
{
    reveal(part_text);
    lemma_parts(name);
    lemma_names();
    lemma_kinds();
    lemma_helps();
    lemma_count("bbtop_fans_detected"@, snapshot.fans@.len(), name);
}

proof fn lemma_part_fans(snapshot: Snapshot, limit: nat, name: Seq<char>)
    requires
        printable(snapshot),
    ensures
        complete(part_text(snapshot, limit, 5)),
        samples(part_text(snapshot, limit, 5), name) == kept(
            views(snapshot.fans@),
            |item: FanView| fan_sample(item, name),
        ),
        part_of(name) != 5 ==> samples(part_text(snapshot, limit, 5), name) == Seq::<
            Sampled,
        >::empty(),
        kinds(part_text(snapshot, limit, 5), name) == if part_of(name) == 5 {
            seq![kind_of(name)]
        } else {
            Seq::empty()
        },
{
    reveal(part_text);
    lemma_parts(name);
    lemma_fans(views(snapshot.fans@), name);
}

proof fn lemma_part_temperature_count(snapshot: Snapshot, limit: nat, name: Seq<char>)
    requires
        printable(snapshot),
    ensures
        complete(part_text(snapshot, limit, 6)),
        name == "bbtop_temperatures_detected"@ ==> samples(part_text(snapshot, limit, 6), name)
            == seq![
            Sampled { labels: Seq::empty(), value: decimal(snapshot.temperatures@.len()) },
        ],
        part_of(name) != 6 ==> samples(part_text(snapshot, limit, 6), name) == Seq::<
            Sampled,
        >::empty(),
        kinds(part_text(snapshot, limit, 6), name) == if part_of(name) == 6 {
            seq![kind_of(name)]
        } else {
            Seq::empty()
        },
{
    reveal(part_text);
    lemma_parts(name);
    lemma_names();
    lemma_kinds();
    lemma_helps();
    lemma_count("bbtop_temperatures_detected"@, snapshot.temperatures@.len(), name);
}

proof fn lemma_part_temperatures(snapshot: Snapshot, limit: nat, name: Seq<char>)
    requires
        printable(snapshot),
    ensures
        complete(part_text(snapshot, limit, 7)),
        samples(part_text(snapshot, limit, 7), name) == kept(
            views(snapshot.temperatures@),
            |item: TemperatureView| temperature_sample(item, name),
        ),
        part_of(name) != 7 ==> samples(part_text(snapshot, limit, 7), name) == Seq::<
            Sampled,
        >::empty(),
        kinds(part_text(snapshot, limit, 7), name) == if part_of(name) == 7 {
            seq![kind_of(name)]
        } else {
            Seq::empty()
        },
{
    reveal(part_text);
    lemma_parts(name);
    lemma_temperatures(views(snapshot.temperatures@), name);
}

proof fn lemma_part_power_count(snapshot: Snapshot, limit: nat, name: Seq<char>)
    requires
        printable(snapshot),
    ensures
        complete(part_text(snapshot, limit, 8)),
        name == "bbtop_power_sensors_detected"@ ==> samples(part_text(snapshot, limit, 8), name)
            == seq![
            Sampled { labels: Seq::empty(), value: decimal(snapshot.power@.len()) },
        ],
        part_of(name) != 8 ==> samples(part_text(snapshot, limit, 8), name) == Seq::<
            Sampled,
        >::empty(),
        kinds(part_text(snapshot, limit, 8), name) == if part_of(name) == 8 {
            seq![kind_of(name)]
        } else {
            Seq::empty()
        },
{
    reveal(part_text);
    lemma_parts(name);
    lemma_names();
    lemma_kinds();
    lemma_helps();
    lemma_count("bbtop_power_sensors_detected"@, snapshot.power@.len(), name);
}

proof fn lemma_part_powers(snapshot: Snapshot, limit: nat, name: Seq<char>)
    requires
        printable(snapshot),
    ensures
        complete(part_text(snapshot, limit, 9)),
        samples(part_text(snapshot, limit, 9), name) == kept(
            views(snapshot.power@),
            |item: PowerView| power_sample(item, name),
        ),
        part_of(name) != 9 ==> samples(part_text(snapshot, limit, 9), name) == Seq::<
            Sampled,
        >::empty(),
        kinds(part_text(snapshot, limit, 9), name) == if part_of(name) == 9 {
            seq![kind_of(name)]
        } else {
            Seq::empty()
        },
{
    reveal(part_text);
    lemma_parts(name);
    lemma_powers(views(snapshot.power@), name);
}

proof fn lemma_part_batteries(snapshot: Snapshot, limit: nat, name: Seq<char>)
    requires
        printable(snapshot),
    ensures
        complete(part_text(snapshot, limit, 10)),
        name != "bbtop_laptop_power_estimate_watts"@ ==> samples(
            part_text(snapshot, limit, 10),
            name,
        ) == kept(
            views(snapshot.battery_power@),
            |item: BatteryPowerView| battery_sample(item, name),
        ),
        name == "bbtop_laptop_power_estimate_watts"@ ==> samples(
            part_text(snapshot, limit, 10),
            name,
        ) == match estimate(views(snapshot.battery_power@), snapshot.discharge_watts@) {
            Some(watts) => seq![
                Sampled { labels: seq![("source"@, "battery"@)], value: watts.millionths },
            ],
            None => Seq::empty(),
        },
        part_of(name) != 10 ==> samples(part_text(snapshot, limit, 10), name) == Seq::<
            Sampled,
        >::empty(),
        kinds(part_text(snapshot, limit, 10), name) == if part_of(name) == 10 {
            seq![kind_of(name)]
        } else {
            Seq::empty()
        },
{
    reveal(part_text);
    lemma_parts(name);
    lemma_batteries(views(snapshot.battery_power@), snapshot.discharge_watts@, name);
}

proof fn lemma_part_voltages(snapshot: Snapshot, limit: nat, name: Seq<char>)
    requires
        printable(snapshot),
    ensures
        complete(part_text(snapshot, limit, 11)),
        samples(part_text(snapshot, limit, 11), name) == kept(
            views(snapshot.voltages@),
            |item: ElectricalReadingView| reading_sample("bbtop_voltage_volts"@, item, name),
        ),
        part_of(name) != 11 ==> samples(part_text(snapshot, limit, 11), name) == Seq::<
            Sampled,
        >::empty(),
        kinds(part_text(snapshot, limit, 11), name) == if part_of(name) == 11 {
            seq![kind_of(name)]
        } else {
            Seq::empty()
        },
{
    reveal(part_text);
    lemma_parts(name);
    lemma_names();
    lemma_kinds();
    lemma_helps();
    lemma_readings("bbtop_voltage_volts"@, "Voltage reported by Linux hwmon"@,
        views(snapshot.voltages@), name);
}

proof fn lemma_part_currents(snapshot: Snapshot, limit: nat, name: Seq<char>)
    requires
        printable(snapshot),
    ensures
        complete(part_text(snapshot, limit, 12)),
        samples(part_text(snapshot, limit, 12), name) == kept(
            views(snapshot.currents@),
            |item: ElectricalReadingView| reading_sample("bbtop_current_amperes"@, item, name),
        ),
        part_of(name) != 12 ==> samples(part_text(snapshot, limit, 12), name) == Seq::<
            Sampled,
        >::empty(),
        kinds(part_text(snapshot, limit, 12), name) == if part_of(name) == 12 {
            seq![kind_of(name)]
        } else {
            Seq::empty()
        },
{
    reveal(part_text);
    lemma_parts(name);
    lemma_names();
    lemma_kinds();
    lemma_helps();
    lemma_readings("bbtop_current_amperes"@, "Current reported by Linux hwmon"@,
        views(snapshot.currents@), name);
}

proof fn lemma_part_limits(snapshot: Snapshot, limit: nat, name: Seq<char>)
    requires
        printable(snapshot),
    ensures
        complete(part_text(snapshot, limit, 13)),
        samples(part_text(snapshot, limit, 13), name) == kept(
            views(snapshot.temperature_limits@),
            |item: TemperatureLimitView| limit_sample(item, name),
        ),
        part_of(name) != 13 ==> samples(part_text(snapshot, limit, 13), name) == Seq::<
            Sampled,
        >::empty(),
        kinds(part_text(snapshot, limit, 13), name) == if part_of(name) == 13 {
            seq![kind_of(name)]
        } else {
            Seq::empty()
        },
{
    reveal(part_text);
    lemma_parts(name);
    lemma_limits(views(snapshot.temperature_limits@), name);
}

proof fn lemma_part_alarms(snapshot: Snapshot, limit: nat, name: Seq<char>)
    requires
        printable(snapshot),
    ensures
        complete(part_text(snapshot, limit, 14)),
        samples(part_text(snapshot, limit, 14), name) == kept(
            views(snapshot.temperature_alarms@),
            |item: TemperatureAlarmView| alarm_sample(item, name),
        ),
        part_of(name) != 14 ==> samples(part_text(snapshot, limit, 14), name) == Seq::<
            Sampled,
        >::empty(),
        kinds(part_text(snapshot, limit, 14), name) == if part_of(name) == 14 {
            seq![kind_of(name)]
        } else {
            Seq::empty()
        },
{
    reveal(part_text);
    lemma_parts(name);
    lemma_alarms(views(snapshot.temperature_alarms@), name);
}

proof fn lemma_part_frequencies(snapshot: Snapshot, limit: nat, name: Seq<char>)
    requires
        printable(snapshot),
    ensures
        complete(part_text(snapshot, limit, 15)),
        samples(part_text(snapshot, limit, 15), name) == kept(
            views(snapshot.cpu_frequencies@),
            |item: CpuFrequencyView| frequency_sample(item, name),
        ),
        part_of(name) != 15 ==> samples(part_text(snapshot, limit, 15), name) == Seq::<
            Sampled,
        >::empty(),
        kinds(part_text(snapshot, limit, 15), name) == if part_of(name) == 15 {
            seq![kind_of(name)]
        } else {
            Seq::empty()
        },
{
    reveal(part_text);
    lemma_parts(name);
    lemma_frequencies(views(snapshot.cpu_frequencies@), name);
}

proof fn lemma_part_supplies(snapshot: Snapshot, limit: nat, name: Seq<char>)
    requires
        printable(snapshot),
    ensures
        complete(part_text(snapshot, limit, 16)),
        samples(part_text(snapshot, limit, 16), name) == kept(
            views(snapshot.mains_supplies@),
            |item: MainsSupplyView| supply_sample(item, name),
        ),
        part_of(name) != 16 ==> samples(part_text(snapshot, limit, 16), name) == Seq::<
            Sampled,
        >::empty(),
        kinds(part_text(snapshot, limit, 16), name) == if part_of(name) == 16 {
            seq![kind_of(name)]
        } else {
            Seq::empty()
        },
{
    reveal(part_text);
    lemma_parts(name);
    lemma_supplies(views(snapshot.mains_supplies@), name);
}

proof fn lemma_part_nvme(snapshot: Snapshot, limit: nat, name: Seq<char>)
    requires
        printable(snapshot),
    ensures
        complete(part_text(snapshot, limit, 17)),
        samples(part_text(snapshot, limit, 17), name) == kept(
            views(snapshot.nvme_smart@),
            |item: NvmeSmartView| nvme_sample(item, name),
        ),
        part_of(name) != 17 ==> samples(part_text(snapshot, limit, 17), name) == Seq::<
            Sampled,
        >::empty(),
        kinds(part_text(snapshot, limit, 17), name) == if part_of(name) == 17 {
            seq![kind_of(name)]
        } else {
            Seq::empty()
        },
{
    reveal(part_text);
    lemma_parts(name);
    lemma_nvme(views(snapshot.nvme_smart@), name);
}

proof fn lemma_part_gpus(snapshot: Snapshot, limit: nat, name: Seq<char>)
    requires
        printable(snapshot),
    ensures
        complete(part_text(snapshot, limit, 18)),
        samples(part_text(snapshot, limit, 18), name) == kept(
            views(snapshot.gpus@),
            |item: GpuView| gpu_sample(item, name),
        ),
        part_of(name) != 18 ==> samples(part_text(snapshot, limit, 18), name) == Seq::<
            Sampled,
        >::empty(),
        kinds(part_text(snapshot, limit, 18), name) == if part_of(name) == 18 {
            seq![kind_of(name)]
        } else {
            Seq::empty()
        },
{
    reveal(part_text);
    lemma_parts(name);
    lemma_gpus(views(snapshot.gpus@), name);
}

proof fn lemma_part_filesystems(snapshot: Snapshot, limit: nat, name: Seq<char>)
    requires
        printable(snapshot),
    ensures
        complete(part_text(snapshot, limit, 19)),
        samples(part_text(snapshot, limit, 19), name) == kept(
            views(snapshot.filesystems@),
            |item: FilesystemView| filesystem_sample(item, name),
        ),
        part_of(name) != 19 ==> samples(part_text(snapshot, limit, 19), name) == Seq::<
            Sampled,
        >::empty(),
        kinds(part_text(snapshot, limit, 19), name) == if part_of(name) == 19 {
            seq![kind_of(name)]
        } else {
            Seq::empty()
        },
{
    reveal(part_text);
    lemma_parts(name);
    lemma_filesystems(views(snapshot.filesystems@), name);
}

proof fn lemma_part_info(snapshot: Snapshot, limit: nat, name: Seq<char>)
    requires
        printable(snapshot),
    ensures
        complete(part_text(snapshot, limit, 20)),
        name == "bbtop_info"@ ==> samples(part_text(snapshot, limit, 20), name) == seq![
            Sampled { labels: seq![("hostname"@, snapshot.hostname@)], value: "1"@ },
        ],
        part_of(name) != 20 ==> samples(part_text(snapshot, limit, 20), name) == Seq::<
            Sampled,
        >::empty(),
        kinds(part_text(snapshot, limit, 20), name) == if part_of(name) == 20 {
            seq![kind_of(name)]
        } else {
            Seq::empty()
        },
{
    reveal(part_text);
    lemma_parts(name);
    lemma_info(snapshot.hostname@, name);
}

proof fn lemma_part_processes(snapshot: Snapshot, limit: nat, name: Seq<char>)
    requires
        printable(snapshot),
    ensures
        complete(part_text(snapshot, limit, 21)),
        samples(part_text(snapshot, limit, 21), name) == kept(
            selection(views(snapshot.processes@), limit),
            |i: int| process_sample(views(snapshot.processes@)[i], name),
        ),
        part_of(name) != 21 ==> samples(part_text(snapshot, limit, 21), name) == Seq::<
            Sampled,
        >::empty(),
        kinds(part_text(snapshot, limit, 21), name) == if part_of(name) == 21 {
            seq![kind_of(name)]
        } else {
            Seq::empty()
        },
{
    reveal(part_text);
    lemma_parts(name);
    lemma_process_types(name);
    lemma_processes(views(snapshot.processes@), limit, name);
    lemma_part(process_types_of(), processes_of(views(snapshot.processes@), limit), name);
}

proof fn lemma_part_at(snapshot: Snapshot, limit: nat, k: int, name: Seq<char>)
    requires
        printable(snapshot),
        1 <= k <= 21,
    ensures
        complete(part_text(snapshot, limit, k)),
        part_of(name) != k ==> samples(part_text(snapshot, limit, k), name) == Seq::<
            Sampled,
        >::empty(),
        kinds(part_text(snapshot, limit, k), name) == if part_of(name) == k {
            seq![kind_of(name)]
        } else {
            Seq::empty()
        },
{
    if k == 1 {
        lemma_part_host(snapshot, limit, name);
    } else if k == 2 {
        lemma_part_networks(snapshot, limit, name);
    } else if k == 3 {
        lemma_part_activity(snapshot, limit, name);
    } else if k == 4 {
        lemma_part_fan_count(snapshot, limit, name);
    } else if k == 5 {
        lemma_part_fans(snapshot, limit, name);
    } else if k == 6 {
        lemma_part_temperature_count(snapshot, limit, name);
    } else if k == 7 {
        lemma_part_temperatures(snapshot, limit, name);
    } else if k == 8 {
        lemma_part_power_count(snapshot, limit, name);
    } else if k == 9 {
        lemma_part_powers(snapshot, limit, name);
    } else if k == 10 {
        lemma_part_batteries(snapshot, limit, name);
    } else if k == 11 {
        lemma_part_voltages(snapshot, limit, name);
    } else if k == 12 {
        lemma_part_currents(snapshot, limit, name);
    } else if k == 13 {
        lemma_part_limits(snapshot, limit, name);
    } else if k == 14 {
        lemma_part_alarms(snapshot, limit, name);
    } else if k == 15 {
        lemma_part_frequencies(snapshot, limit, name);
    } else if k == 16 {
        lemma_part_supplies(snapshot, limit, name);
    } else if k == 17 {
        lemma_part_nvme(snapshot, limit, name);
    } else if k == 18 {
        lemma_part_gpus(snapshot, limit, name);
    } else if k == 19 {
        lemma_part_filesystems(snapshot, limit, name);
    } else if k == 20 {
        lemma_part_info(snapshot, limit, name);
    } else {
        lemma_part_processes(snapshot, limit, name);
    }
}

/// The first `k` parts of an exposition.
spec fn first_parts(snapshot: Snapshot, limit: nat, k: nat) -> Seq<char>
    decreases k,
{
    if k == 0 {
        Seq::empty()
    } else {
        first_parts(snapshot, limit, (k - 1) as nat) + part_text(snapshot, limit, k as int)
    }
}

proof fn lemma_first_parts(snapshot: Snapshot, limit: nat, k: nat, name: Seq<char>)
    requires
        printable(snapshot),
        k <= 21,
    ensures
        complete(first_parts(snapshot, limit, k)),
        samples(first_parts(snapshot, limit, k), name) == if 1 <= part_of(name) <= k {
            samples(part_text(snapshot, limit, part_of(name)), name)
        } else {
            Seq::empty()
        },
        kinds(first_parts(snapshot, limit, k), name) == if 1 <= part_of(name) <= k {
            seq![kind_of(name)]
        } else {
            Seq::empty()
        },
    decreases k,
{
    if k == 0 {
        lemma_nothing(name);
    } else {
        let fewer = (k - 1) as nat;
        lemma_first_parts(snapshot, limit, fewer, name);
        lemma_part_at(snapshot, limit, k as int, name);
        lemma_part(
            first_parts(snapshot, limit, fewer),
            part_text(snapshot, limit, k as int),
            name,
        );
    }
}

proof fn lemma_whole(snapshot: Snapshot, limit: nat)
    ensures
        exposition(snapshot, limit) == first_parts(snapshot, limit, 21),
{
    reveal(exposition);
    reveal(part_text);
    reveal_with_fuel(first_parts, 22);
    assert(exposition(snapshot, limit) =~= first_parts(snapshot, limit, 21));
}

/// What stands under a name in an exposition stands in the part that is about it.
proof fn lemma_exposition(snapshot: Snapshot, limit: nat, name: Seq<char>)
    requires
        printable(snapshot),
    ensures
        samples(exposition(snapshot, limit), name) == if part_of(name) > 0 {
            samples(part_text(snapshot, limit, part_of(name)), name)
        } else {
            Seq::empty()
        },
        kinds(exposition(snapshot, limit), name) == if part_of(name) > 0 {
            seq![kind_of(name)]
        } else {
            Seq::empty()
        },
{
    lemma_parts(name);
    lemma_whole(snapshot, limit);
    lemma_first_parts(snapshot, limit, 21, name);
}

/// The number under a name, where there is one sample of it, without labels, and its
/// value is a number.
pub open spec fn number_under(text: Seq<char>, name: Seq<char>) -> Option<nat> {
    let found = samples(text, name);
    if found.len() == 1 && found[0].labels.len() == 0 && digits(found[0].value) {
        Some(value(found[0].value))
    } else {
        None
    }
}

/// The text under a name, where there is one sample of it, without labels.
pub open spec fn text_under(text: Seq<char>, name: Seq<char>) -> Option<Seq<char>> {
    let found = samples(text, name);
    if found.len() == 1 && found[0].labels.len() == 0 {
        Some(found[0].value)
    } else {
        None
    }
}


/// A reader of the exposition finds the CPU, the memory, the swap space, the load and
/// the uptime under their names: one sample each, with the number or the text that the
/// snapshot holds.
pub proof fn law_the_host_reads_back(snapshot: Snapshot, limit: nat)
    requires
        printable(snapshot),
    ensures
        ({
            let text = exposition(snapshot, limit);
            &&& text_under(text, "bbtop_cpu_usage_percent"@) == Some(snapshot.cpu_percent.shortest@)
            &&& number_under(text, "bbtop_cpu_logical_count"@) == Some(snapshot.cpu_count as nat)
            &&& number_under(text, "bbtop_memory_total_bytes"@)
                == Some(snapshot.memory_total as nat)
            &&& number_under(text, "bbtop_memory_available_bytes"@)
                == Some(snapshot.memory_available as nat)
            &&& number_under(text, "bbtop_swap_total_bytes"@) == Some(snapshot.swap_total as nat)
            &&& number_under(text, "bbtop_swap_free_bytes"@) == Some(snapshot.swap_free as nat)
            &&& text_under(text, "bbtop_load1"@) == Some(snapshot.load@[0].shortest@)
            &&& text_under(text, "bbtop_load5"@) == Some(snapshot.load@[1].shortest@)
            &&& text_under(text, "bbtop_load15"@) == Some(snapshot.load@[2].shortest@)
            &&& text_under(text, "bbtop_uptime_seconds"@) == Some(snapshot.uptime.shortest@)
        }),
{
    lemma_places();
    lemma_exposition(snapshot, limit, "bbtop_cpu_usage_percent"@);
    lemma_part_host(snapshot, limit, "bbtop_cpu_usage_percent"@);
    lemma_exposition(snapshot, limit, "bbtop_cpu_logical_count"@);
    lemma_part_host(snapshot, limit, "bbtop_cpu_logical_count"@);
    law_decimal_reads_back(snapshot.cpu_count as nat);
    lemma_exposition(snapshot, limit, "bbtop_memory_total_bytes"@);
    lemma_part_host(snapshot, limit, "bbtop_memory_total_bytes"@);
    law_decimal_reads_back(snapshot.memory_total as nat);
    lemma_exposition(snapshot, limit, "bbtop_memory_available_bytes"@);
    lemma_part_host(snapshot, limit, "bbtop_memory_available_bytes"@);
    law_decimal_reads_back(snapshot.memory_available as nat);
    lemma_exposition(snapshot, limit, "bbtop_swap_total_bytes"@);
    lemma_part_host(snapshot, limit, "bbtop_swap_total_bytes"@);
    law_decimal_reads_back(snapshot.swap_total as nat);
    lemma_exposition(snapshot, limit, "bbtop_swap_free_bytes"@);
    lemma_part_host(snapshot, limit, "bbtop_swap_free_bytes"@);
    law_decimal_reads_back(snapshot.swap_free as nat);
    lemma_exposition(snapshot, limit, "bbtop_load1"@);
    lemma_part_host(snapshot, limit, "bbtop_load1"@);
    lemma_exposition(snapshot, limit, "bbtop_load5"@);
    lemma_part_host(snapshot, limit, "bbtop_load5"@);
    lemma_exposition(snapshot, limit, "bbtop_load15"@);
    lemma_part_host(snapshot, limit, "bbtop_load15"@);
    lemma_exposition(snapshot, limit, "bbtop_uptime_seconds"@);
    lemma_part_host(snapshot, limit, "bbtop_uptime_seconds"@);
}

/// A reader of the exposition finds the disk counters, the tasks, the moment of the
/// collection and the numbers of the sensors under their names.
pub proof fn law_the_activity_reads_back(snapshot: Snapshot, limit: nat)
    requires
        printable(snapshot),
    ensures
        ({
            let text = exposition(snapshot, limit);
            &&& number_under(text, "bbtop_disk_read_bytes_total"@)
                == Some(snapshot.disk_read_bytes as nat)
            &&& number_under(text, "bbtop_disk_write_bytes_total"@)
                == Some(snapshot.disk_write_bytes as nat)
            &&& number_under(text, "bbtop_processes"@) == Some(snapshot.processes_total as nat)
            &&& number_under(text, "bbtop_processes_running"@)
                == Some(snapshot.processes_running as nat)
            &&& number_under(text, "bbtop_last_collection_timestamp_seconds"@)
                == Some(snapshot.timestamp as nat)
            &&& number_under(text, "bbtop_fans_detected"@) == Some(snapshot.fans@.len())
            &&& number_under(text, "bbtop_temperatures_detected"@)
                == Some(snapshot.temperatures@.len())
            &&& number_under(text, "bbtop_power_sensors_detected"@) == Some(snapshot.power@.len())
        }),
{
    lemma_places();
    lemma_exposition(snapshot, limit, "bbtop_disk_read_bytes_total"@);
    lemma_part_activity(snapshot, limit, "bbtop_disk_read_bytes_total"@);
    law_decimal_reads_back(snapshot.disk_read_bytes as nat);
    lemma_exposition(snapshot, limit, "bbtop_disk_write_bytes_total"@);
    lemma_part_activity(snapshot, limit, "bbtop_disk_write_bytes_total"@);
    law_decimal_reads_back(snapshot.disk_write_bytes as nat);
    lemma_exposition(snapshot, limit, "bbtop_processes"@);
    lemma_part_activity(snapshot, limit, "bbtop_processes"@);
    law_decimal_reads_back(snapshot.processes_total as nat);
    lemma_exposition(snapshot, limit, "bbtop_processes_running"@);
    lemma_part_activity(snapshot, limit, "bbtop_processes_running"@);
    law_decimal_reads_back(snapshot.processes_running as nat);
    lemma_exposition(snapshot, limit, "bbtop_last_collection_timestamp_seconds"@);
    lemma_part_activity(snapshot, limit, "bbtop_last_collection_timestamp_seconds"@);
    law_decimal_reads_back(snapshot.timestamp as nat);
    lemma_exposition(snapshot, limit, "bbtop_fans_detected"@);
    lemma_part_fan_count(snapshot, limit, "bbtop_fans_detected"@);
    law_decimal_reads_back(snapshot.fans@.len());
    lemma_exposition(snapshot, limit, "bbtop_temperatures_detected"@);
    lemma_part_temperature_count(snapshot, limit, "bbtop_temperatures_detected"@);
    law_decimal_reads_back(snapshot.temperatures@.len());
    lemma_exposition(snapshot, limit, "bbtop_power_sensors_detected"@);
    lemma_part_power_count(snapshot, limit, "bbtop_power_sensors_detected"@);
    law_decimal_reads_back(snapshot.power@.len());
}

/// A reader of the exposition finds each network interface with its name and kind, what
/// it received under the one name and what it sent under the other.
pub proof fn law_the_interfaces_read_back(snapshot: Snapshot, limit: nat)
    requires
        printable(snapshot),
    ensures
        ({
            let text = exposition(snapshot, limit);
            &&& samples(text, "bbtop_network_receive_bytes_total"@)
                == views(snapshot.networks@).map_values(
                |item: NetworkInterfaceView| Sampled {
                    labels: seq![("interface"@, item.name), ("kind"@, item.kind)],
                    value: decimal(item.receive_bytes as nat),
                },
            )
            &&& samples(text, "bbtop_network_transmit_bytes_total"@)
                == views(snapshot.networks@).map_values(
                |item: NetworkInterfaceView| Sampled {
                    labels: seq![("interface"@, item.name), ("kind"@, item.kind)],
                    value: decimal(item.transmit_bytes as nat),
                },
            )
        }),
{
    lemma_places();
    lemma_names();
    assert(samples(exposition(snapshot, limit), "bbtop_network_receive_bytes_total"@)
        == views(snapshot.networks@).map_values(
        |item: NetworkInterfaceView| Sampled { labels: seq![("interface"@, item.name),
            ("kind"@, item.kind)], value: decimal(item.receive_bytes as nat) },
    )) by {
        lemma_exposition(snapshot, limit, "bbtop_network_receive_bytes_total"@);
        lemma_part_networks(snapshot, limit, "bbtop_network_receive_bytes_total"@);
        lemma_kept_all(
            views(snapshot.networks@),
            |item: NetworkInterfaceView| network_sample(item, "bbtop_network_receive_bytes_total"@),
            |item: NetworkInterfaceView| Sampled { labels: seq![("interface"@, item.name),
                ("kind"@, item.kind)], value: decimal(item.receive_bytes as nat) },
        );
    }
    assert(samples(exposition(snapshot, limit), "bbtop_network_transmit_bytes_total"@)
        == views(snapshot.networks@).map_values(
        |item: NetworkInterfaceView| Sampled { labels: seq![("interface"@, item.name),
            ("kind"@, item.kind)], value: decimal(item.transmit_bytes as nat) },
    )) by {
        lemma_exposition(snapshot, limit, "bbtop_network_transmit_bytes_total"@);
        lemma_part_networks(snapshot, limit, "bbtop_network_transmit_bytes_total"@);
        lemma_kept_all(
            views(snapshot.networks@),
            |item: NetworkInterfaceView| network_sample(item,
                "bbtop_network_transmit_bytes_total"@),
            |item: NetworkInterfaceView| Sampled { labels: seq![("interface"@, item.name),
                ("kind"@, item.kind)], value: decimal(item.transmit_bytes as nat) },
        );
    }
}

/// A reader of the exposition finds each sensor with its chip and its name, under the
/// name of what it measures.
pub proof fn law_the_sensors_read_back(snapshot: Snapshot, limit: nat)
    requires
        printable(snapshot),
    ensures
        ({
            let text = exposition(snapshot, limit);
            &&& samples(text, "bbtop_fan_speed_rpm"@) == views(snapshot.fans@).map_values(
                |item: FanView| Sampled {
                    labels: seq![("chip"@, item.chip), ("sensor"@, item.sensor)],
                    value: decimal(item.rpm as nat),
                },
            )
            &&& samples(text, "bbtop_temperature_celsius"@)
                == views(snapshot.temperatures@).map_values(
                |item: TemperatureView| Sampled {
                    labels: seq![("chip"@, item.chip), ("sensor"@, item.sensor)],
                    value: item.celsius.thousandths,
                },
            )
            &&& samples(text, "bbtop_power_watts"@) == views(snapshot.power@).map_values(
                |item: PowerView| Sampled {
                    labels: seq![("chip"@, item.chip), ("sensor"@, item.sensor),
                        ("reading"@, item.reading)],
                    value: item.watts.millionths,
                },
            )
            &&& samples(text, "bbtop_temperature_limit_celsius"@)
                == views(snapshot.temperature_limits@).map_values(
                |item: TemperatureLimitView| Sampled {
                    labels: seq![("chip"@, item.chip), ("sensor"@, item.sensor),
                        ("limit"@, item.limit)],
                    value: item.celsius.thousandths,
                },
            )
            &&& samples(text, "bbtop_temperature_alarm"@)
                == views(snapshot.temperature_alarms@).map_values(
                |item: TemperatureAlarmView| Sampled {
                    labels: seq![("chip"@, item.chip), ("sensor"@, item.sensor)],
                    value: decimal(item.value as nat),
                },
            )
            &&& samples(text, "bbtop_voltage_volts"@) == views(snapshot.voltages@).map_values(
                |item: ElectricalReadingView| Sampled {
                    labels: seq![("chip"@, item.chip), ("sensor"@, item.sensor)],
                    value: item.value.millionths,
                },
            )
            &&& samples(text, "bbtop_current_amperes"@) == views(snapshot.currents@).map_values(
                |item: ElectricalReadingView| Sampled {
                    labels: seq![("chip"@, item.chip), ("sensor"@, item.sensor)],
                    value: item.value.millionths,
                },
            )
        }),
{
    lemma_places();
    lemma_names();
    assert(samples(exposition(snapshot, limit), "bbtop_fan_speed_rpm"@)
        == views(snapshot.fans@).map_values(
        |item: FanView| Sampled { labels: seq![("chip"@, item.chip), ("sensor"@, item.sensor)],
            value: decimal(item.rpm as nat) },
    )) by {
        lemma_exposition(snapshot, limit, "bbtop_fan_speed_rpm"@);
        lemma_part_fans(snapshot, limit, "bbtop_fan_speed_rpm"@);
        lemma_kept_all(
            views(snapshot.fans@),
            |item: FanView| fan_sample(item, "bbtop_fan_speed_rpm"@),
            |item: FanView| Sampled { labels: seq![("chip"@, item.chip), ("sensor"@, item.sensor)],
                value: decimal(item.rpm as nat) },
        );
    }
    assert(samples(exposition(snapshot, limit), "bbtop_temperature_celsius"@)
        == views(snapshot.temperatures@).map_values(
        |item: TemperatureView| Sampled { labels: seq![("chip"@, item.chip),
            ("sensor"@, item.sensor)], value: item.celsius.thousandths },
    )) by {
        lemma_exposition(snapshot, limit, "bbtop_temperature_celsius"@);
        lemma_part_temperatures(snapshot, limit, "bbtop_temperature_celsius"@);
        lemma_kept_all(
            views(snapshot.temperatures@),
            |item: TemperatureView| temperature_sample(item, "bbtop_temperature_celsius"@),
            |item: TemperatureView| Sampled { labels: seq![("chip"@, item.chip),
                ("sensor"@, item.sensor)], value: item.celsius.thousandths },
        );
    }
    assert(samples(exposition(snapshot, limit), "bbtop_power_watts"@)
        == views(snapshot.power@).map_values(
        |item: PowerView| Sampled { labels: seq![("chip"@, item.chip), ("sensor"@, item.sensor),
            ("reading"@, item.reading)], value: item.watts.millionths },
    )) by {
        lemma_exposition(snapshot, limit, "bbtop_power_watts"@);
        lemma_part_powers(snapshot, limit, "bbtop_power_watts"@);
        lemma_kept_all(
            views(snapshot.power@),
            |item: PowerView| power_sample(item, "bbtop_power_watts"@),
            |item: PowerView| Sampled { labels: seq![("chip"@, item.chip), ("sensor"@, item.sensor),
                ("reading"@, item.reading)], value: item.watts.millionths },
        );
    }
    assert(samples(exposition(snapshot, limit), "bbtop_temperature_limit_celsius"@)
        == views(snapshot.temperature_limits@).map_values(
        |item: TemperatureLimitView| Sampled { labels: seq![("chip"@, item.chip),
            ("sensor"@, item.sensor), ("limit"@, item.limit)], value: item.celsius.thousandths },
    )) by {
        lemma_exposition(snapshot, limit, "bbtop_temperature_limit_celsius"@);
        lemma_part_limits(snapshot, limit, "bbtop_temperature_limit_celsius"@);
        lemma_kept_all(
            views(snapshot.temperature_limits@),
            |item: TemperatureLimitView| limit_sample(item, "bbtop_temperature_limit_celsius"@),
            |item: TemperatureLimitView| Sampled { labels: seq![("chip"@, item.chip),
                ("sensor"@, item.sensor), ("limit"@, item.limit)],
                value: item.celsius.thousandths },
        );
    }
    assert(samples(exposition(snapshot, limit), "bbtop_temperature_alarm"@)
        == views(snapshot.temperature_alarms@).map_values(
        |item: TemperatureAlarmView| Sampled { labels: seq![("chip"@, item.chip),
            ("sensor"@, item.sensor)], value: decimal(item.value as nat) },
    )) by {
        lemma_exposition(snapshot, limit, "bbtop_temperature_alarm"@);
        lemma_part_alarms(snapshot, limit, "bbtop_temperature_alarm"@);
        lemma_kept_all(
            views(snapshot.temperature_alarms@),
            |item: TemperatureAlarmView| alarm_sample(item, "bbtop_temperature_alarm"@),
            |item: TemperatureAlarmView| Sampled { labels: seq![("chip"@, item.chip),
                ("sensor"@, item.sensor)], value: decimal(item.value as nat) },
        );
    }
    assert(samples(exposition(snapshot, limit), "bbtop_voltage_volts"@)
        == views(snapshot.voltages@).map_values(
        |item: ElectricalReadingView| Sampled { labels: seq![("chip"@, item.chip),
            ("sensor"@, item.sensor)], value: item.value.millionths },
    )) by {
        lemma_exposition(snapshot, limit, "bbtop_voltage_volts"@);
        lemma_part_voltages(snapshot, limit, "bbtop_voltage_volts"@);
        lemma_kept_all(
            views(snapshot.voltages@),
            |item: ElectricalReadingView| reading_sample("bbtop_voltage_volts"@, item,
                "bbtop_voltage_volts"@),
            |item: ElectricalReadingView| Sampled { labels: seq![("chip"@, item.chip),
                ("sensor"@, item.sensor)], value: item.value.millionths },
        );
    }
    assert(samples(exposition(snapshot, limit), "bbtop_current_amperes"@)
        == views(snapshot.currents@).map_values(
        |item: ElectricalReadingView| Sampled { labels: seq![("chip"@, item.chip),
            ("sensor"@, item.sensor)], value: item.value.millionths },
    )) by {
        lemma_exposition(snapshot, limit, "bbtop_current_amperes"@);
        lemma_part_currents(snapshot, limit, "bbtop_current_amperes"@);
        lemma_kept_all(
            views(snapshot.currents@),
            |item: ElectricalReadingView| reading_sample("bbtop_current_amperes"@, item,
                "bbtop_current_amperes"@),
            |item: ElectricalReadingView| Sampled { labels: seq![("chip"@, item.chip),
                ("sensor"@, item.sensor)], value: item.value.millionths },
        );
    }
}

/// A reader of the exposition finds each CPU with its frequency and each external power
/// supply with a one where it is online, and a zero where it is not.
pub proof fn law_the_frequencies_and_supplies_read_back(snapshot: Snapshot, limit: nat)
    requires
        printable(snapshot),
    ensures
        ({
            let text = exposition(snapshot, limit);
            &&& samples(text, "bbtop_cpu_frequency_hertz"@)
                == views(snapshot.cpu_frequencies@).map_values(
                |item: CpuFrequencyView| Sampled {
                    labels: seq![("cpu"@, item.cpu)],
                    value: decimal(item.hertz as nat),
                },
            )
            &&& samples(text, "bbtop_mains_online"@) == views(snapshot.mains_supplies@).map_values(
                |item: MainsSupplyView| Sampled {
                    labels: seq![("supply"@, item.supply)],
                    value: decimal(if item.online { 1 } else { 0 }),
                },
            )
        }),
{
    lemma_places();
    lemma_names();
    assert(samples(exposition(snapshot, limit), "bbtop_cpu_frequency_hertz"@)
        == views(snapshot.cpu_frequencies@).map_values(
        |item: CpuFrequencyView| Sampled { labels: seq![("cpu"@, item.cpu)],
            value: decimal(item.hertz as nat) },
    )) by {
        lemma_exposition(snapshot, limit, "bbtop_cpu_frequency_hertz"@);
        lemma_part_frequencies(snapshot, limit, "bbtop_cpu_frequency_hertz"@);
        lemma_kept_all(
            views(snapshot.cpu_frequencies@),
            |item: CpuFrequencyView| frequency_sample(item, "bbtop_cpu_frequency_hertz"@),
            |item: CpuFrequencyView| Sampled { labels: seq![("cpu"@, item.cpu)],
                value: decimal(item.hertz as nat) },
        );
    }
    assert(samples(exposition(snapshot, limit), "bbtop_mains_online"@)
        == views(snapshot.mains_supplies@).map_values(
        |item: MainsSupplyView| Sampled { labels: seq![("supply"@, item.supply)],
            value: decimal(if item.online { 1 } else { 0 }) },
    )) by {
        lemma_exposition(snapshot, limit, "bbtop_mains_online"@);
        lemma_part_supplies(snapshot, limit, "bbtop_mains_online"@);
        lemma_kept_all(
            views(snapshot.mains_supplies@),
            |item: MainsSupplyView| supply_sample(item, "bbtop_mains_online"@),
            |item: MainsSupplyView| Sampled { labels: seq![("supply"@, item.supply)],
                value: decimal(if item.online { 1 } else { 0 }) },
        );
    }
}

/// A reader of the exposition finds each number of a health log under its name, the
/// amounts of data in bytes.
pub proof fn law_the_health_logs_read_back(snapshot: Snapshot, limit: nat)
    requires
        printable(snapshot),
    ensures
        ({
            let text = exposition(snapshot, limit);
            &&& samples(text, "bbtop_nvme_percentage_used"@)
                == views(snapshot.nvme_smart@).map_values(
                |item: NvmeSmartView| Sampled {
                    labels: seq![("device"@, item.device)],
                    value: decimal(item.percentage_used as nat),
                },
            )
            &&& samples(text, "bbtop_nvme_available_spare_percent"@)
                == views(snapshot.nvme_smart@).map_values(
                |item: NvmeSmartView| Sampled {
                    labels: seq![("device"@, item.device)],
                    value: decimal(item.available_spare as nat),
                },
            )
            &&& samples(text, "bbtop_nvme_available_spare_threshold_percent"@)
                == views(snapshot.nvme_smart@).map_values(
                |item: NvmeSmartView| Sampled {
                    labels: seq![("device"@, item.device)],
                    value: decimal(item.available_spare_threshold as nat),
                },
            )
            &&& samples(text, "bbtop_nvme_critical_warning"@)
                == views(snapshot.nvme_smart@).map_values(
                |item: NvmeSmartView| Sampled {
                    labels: seq![("device"@, item.device)],
                    value: decimal(item.critical_warning as nat),
                },
            )
            &&& samples(text, "bbtop_nvme_data_read_bytes_total"@)
                == views(snapshot.nvme_smart@).map_values(
                |item: NvmeSmartView| Sampled {
                    labels: seq![("device"@, item.device)],
                    value: decimal(if item.data_units_read * 512_000 > u64::MAX {
                        u64::MAX as nat } else { (item.data_units_read * 512_000) as nat }),
                },
            )
            &&& samples(text, "bbtop_nvme_data_written_bytes_total"@)
                == views(snapshot.nvme_smart@).map_values(
                |item: NvmeSmartView| Sampled {
                    labels: seq![("device"@, item.device)],
                    value: decimal(if item.data_units_written * 512_000 > u64::MAX {
                        u64::MAX as nat } else { (item.data_units_written * 512_000) as nat }),
                },
            )
            &&& samples(text, "bbtop_nvme_power_cycles_total"@)
                == views(snapshot.nvme_smart@).map_values(
                |item: NvmeSmartView| Sampled {
                    labels: seq![("device"@, item.device)],
                    value: decimal(item.power_cycles as nat),
                },
            )
            &&& samples(text, "bbtop_nvme_power_on_hours_total"@)
                == views(snapshot.nvme_smart@).map_values(
                |item: NvmeSmartView| Sampled {
                    labels: seq![("device"@, item.device)],
                    value: decimal(item.power_on_hours as nat),
                },
            )
            &&& samples(text, "bbtop_nvme_unsafe_shutdowns_total"@)
                == views(snapshot.nvme_smart@).map_values(
                |item: NvmeSmartView| Sampled {
                    labels: seq![("device"@, item.device)],
                    value: decimal(item.unsafe_shutdowns as nat),
                },
            )
            &&& samples(text, "bbtop_nvme_media_errors_total"@)
                == views(snapshot.nvme_smart@).map_values(
                |item: NvmeSmartView| Sampled {
                    labels: seq![("device"@, item.device)],
                    value: decimal(item.media_errors as nat),
                },
            )
            &&& samples(text, "bbtop_nvme_error_log_entries_total"@)
                == views(snapshot.nvme_smart@).map_values(
                |item: NvmeSmartView| Sampled {
                    labels: seq![("device"@, item.device)],
                    value: decimal(item.error_log_entries as nat),
                },
            )
        }),
{
    lemma_places();
    lemma_names();
    assert(samples(exposition(snapshot, limit), "bbtop_nvme_percentage_used"@)
        == views(snapshot.nvme_smart@).map_values(
        |item: NvmeSmartView| Sampled { labels: seq![("device"@, item.device)],
            value: decimal(item.percentage_used as nat) },
    )) by {
        lemma_exposition(snapshot, limit, "bbtop_nvme_percentage_used"@);
        lemma_part_nvme(snapshot, limit, "bbtop_nvme_percentage_used"@);
        lemma_kept_all(
            views(snapshot.nvme_smart@),
            |item: NvmeSmartView| nvme_sample(item, "bbtop_nvme_percentage_used"@),
            |item: NvmeSmartView| Sampled { labels: seq![("device"@, item.device)],
                value: decimal(item.percentage_used as nat) },
        );
    }
    assert(samples(exposition(snapshot, limit), "bbtop_nvme_available_spare_percent"@)
        == views(snapshot.nvme_smart@).map_values(
        |item: NvmeSmartView| Sampled { labels: seq![("device"@, item.device)],
            value: decimal(item.available_spare as nat) },
    )) by {
        lemma_exposition(snapshot, limit, "bbtop_nvme_available_spare_percent"@);
        lemma_part_nvme(snapshot, limit, "bbtop_nvme_available_spare_percent"@);
        lemma_kept_all(
            views(snapshot.nvme_smart@),
            |item: NvmeSmartView| nvme_sample(item, "bbtop_nvme_available_spare_percent"@),
            |item: NvmeSmartView| Sampled { labels: seq![("device"@, item.device)],
                value: decimal(item.available_spare as nat) },
        );
    }
    assert(samples(exposition(snapshot, limit), "bbtop_nvme_available_spare_threshold_percent"@)
        == views(snapshot.nvme_smart@).map_values(
        |item: NvmeSmartView| Sampled { labels: seq![("device"@, item.device)],
            value: decimal(item.available_spare_threshold as nat) },
    )) by {
        lemma_exposition(snapshot, limit, "bbtop_nvme_available_spare_threshold_percent"@);
        lemma_part_nvme(snapshot, limit, "bbtop_nvme_available_spare_threshold_percent"@);
        lemma_kept_all(
            views(snapshot.nvme_smart@),
            |item: NvmeSmartView| nvme_sample(item,
                "bbtop_nvme_available_spare_threshold_percent"@),
            |item: NvmeSmartView| Sampled { labels: seq![("device"@, item.device)],
                value: decimal(item.available_spare_threshold as nat) },
        );
    }
    assert(samples(exposition(snapshot, limit), "bbtop_nvme_critical_warning"@)
        == views(snapshot.nvme_smart@).map_values(
        |item: NvmeSmartView| Sampled { labels: seq![("device"@, item.device)],
            value: decimal(item.critical_warning as nat) },
    )) by {
        lemma_exposition(snapshot, limit, "bbtop_nvme_critical_warning"@);
        lemma_part_nvme(snapshot, limit, "bbtop_nvme_critical_warning"@);
        lemma_kept_all(
            views(snapshot.nvme_smart@),
            |item: NvmeSmartView| nvme_sample(item, "bbtop_nvme_critical_warning"@),
            |item: NvmeSmartView| Sampled { labels: seq![("device"@, item.device)],
                value: decimal(item.critical_warning as nat) },
        );
    }
    assert(samples(exposition(snapshot, limit), "bbtop_nvme_data_read_bytes_total"@)
        == views(snapshot.nvme_smart@).map_values(
        |item: NvmeSmartView| Sampled { labels: seq![("device"@, item.device)],
            value: decimal(if item.data_units_read * 512_000 > u64::MAX { u64::MAX as nat } else { (
            item.data_units_read * 512_000) as nat }) },
    )) by {
        lemma_exposition(snapshot, limit, "bbtop_nvme_data_read_bytes_total"@);
        lemma_part_nvme(snapshot, limit, "bbtop_nvme_data_read_bytes_total"@);
        lemma_kept_all(
            views(snapshot.nvme_smart@),
            |item: NvmeSmartView| nvme_sample(item, "bbtop_nvme_data_read_bytes_total"@),
            |item: NvmeSmartView| Sampled { labels: seq![("device"@, item.device)],
                value: decimal(if item.data_units_read * 512_000 > u64::MAX {
                u64::MAX as nat } else { (item.data_units_read * 512_000) as nat }) },
        );
    }
    assert(samples(exposition(snapshot, limit), "bbtop_nvme_data_written_bytes_total"@)
        == views(snapshot.nvme_smart@).map_values(
        |item: NvmeSmartView| Sampled { labels: seq![("device"@, item.device)],
            value: decimal(if item.data_units_written * 512_000 > u64::MAX {
            u64::MAX as nat } else { (item.data_units_written * 512_000) as nat }) },
    )) by {
        lemma_exposition(snapshot, limit, "bbtop_nvme_data_written_bytes_total"@);
        lemma_part_nvme(snapshot, limit, "bbtop_nvme_data_written_bytes_total"@);
        lemma_kept_all(
            views(snapshot.nvme_smart@),
            |item: NvmeSmartView| nvme_sample(item, "bbtop_nvme_data_written_bytes_total"@),
            |item: NvmeSmartView| Sampled { labels: seq![("device"@, item.device)],
                value: decimal(if item.data_units_written * 512_000 > u64::MAX {
                u64::MAX as nat } else { (item.data_units_written * 512_000) as nat }) },
        );
    }
    assert(samples(exposition(snapshot, limit), "bbtop_nvme_power_cycles_total"@)
        == views(snapshot.nvme_smart@).map_values(
        |item: NvmeSmartView| Sampled { labels: seq![("device"@, item.device)],
            value: decimal(item.power_cycles as nat) },
    )) by {
        lemma_exposition(snapshot, limit, "bbtop_nvme_power_cycles_total"@);
        lemma_part_nvme(snapshot, limit, "bbtop_nvme_power_cycles_total"@);
        lemma_kept_all(
            views(snapshot.nvme_smart@),
            |item: NvmeSmartView| nvme_sample(item, "bbtop_nvme_power_cycles_total"@),
            |item: NvmeSmartView| Sampled { labels: seq![("device"@, item.device)],
                value: decimal(item.power_cycles as nat) },
        );
    }
    assert(samples(exposition(snapshot, limit), "bbtop_nvme_power_on_hours_total"@)
        == views(snapshot.nvme_smart@).map_values(
        |item: NvmeSmartView| Sampled { labels: seq![("device"@, item.device)],
            value: decimal(item.power_on_hours as nat) },
    )) by {
        lemma_exposition(snapshot, limit, "bbtop_nvme_power_on_hours_total"@);
        lemma_part_nvme(snapshot, limit, "bbtop_nvme_power_on_hours_total"@);
        lemma_kept_all(
            views(snapshot.nvme_smart@),
            |item: NvmeSmartView| nvme_sample(item, "bbtop_nvme_power_on_hours_total"@),
            |item: NvmeSmartView| Sampled { labels: seq![("device"@, item.device)],
                value: decimal(item.power_on_hours as nat) },
        );
    }
    assert(samples(exposition(snapshot, limit), "bbtop_nvme_unsafe_shutdowns_total"@)
        == views(snapshot.nvme_smart@).map_values(
        |item: NvmeSmartView| Sampled { labels: seq![("device"@, item.device)],
            value: decimal(item.unsafe_shutdowns as nat) },
    )) by {
        lemma_exposition(snapshot, limit, "bbtop_nvme_unsafe_shutdowns_total"@);
        lemma_part_nvme(snapshot, limit, "bbtop_nvme_unsafe_shutdowns_total"@);
        lemma_kept_all(
            views(snapshot.nvme_smart@),
            |item: NvmeSmartView| nvme_sample(item, "bbtop_nvme_unsafe_shutdowns_total"@),
            |item: NvmeSmartView| Sampled { labels: seq![("device"@, item.device)],
                value: decimal(item.unsafe_shutdowns as nat) },
        );
    }
    assert(samples(exposition(snapshot, limit), "bbtop_nvme_media_errors_total"@)
        == views(snapshot.nvme_smart@).map_values(
        |item: NvmeSmartView| Sampled { labels: seq![("device"@, item.device)],
            value: decimal(item.media_errors as nat) },
    )) by {
        lemma_exposition(snapshot, limit, "bbtop_nvme_media_errors_total"@);
        lemma_part_nvme(snapshot, limit, "bbtop_nvme_media_errors_total"@);
        lemma_kept_all(
            views(snapshot.nvme_smart@),
            |item: NvmeSmartView| nvme_sample(item, "bbtop_nvme_media_errors_total"@),
            |item: NvmeSmartView| Sampled { labels: seq![("device"@, item.device)],
                value: decimal(item.media_errors as nat) },
        );
    }
    assert(samples(exposition(snapshot, limit), "bbtop_nvme_error_log_entries_total"@)
        == views(snapshot.nvme_smart@).map_values(
        |item: NvmeSmartView| Sampled { labels: seq![("device"@, item.device)],
            value: decimal(item.error_log_entries as nat) },
    )) by {
        lemma_exposition(snapshot, limit, "bbtop_nvme_error_log_entries_total"@);
        lemma_part_nvme(snapshot, limit, "bbtop_nvme_error_log_entries_total"@);
        lemma_kept_all(
            views(snapshot.nvme_smart@),
            |item: NvmeSmartView| nvme_sample(item, "bbtop_nvme_error_log_entries_total"@),
            |item: NvmeSmartView| Sampled { labels: seq![("device"@, item.device)],
                value: decimal(item.error_log_entries as nat) },
        );
    }
}

/// A reader of the exposition finds the load and the memory of each card, and the size
/// of each filesystem, what is available of it and what is not.
pub proof fn law_the_cards_and_filesystems_read_back(snapshot: Snapshot, limit: nat)
    requires
        printable(snapshot),
    ensures
        ({
            let text = exposition(snapshot, limit);
            &&& samples(text, "bbtop_gpu_busy_percent"@) == views(snapshot.gpus@).map_values(
                |item: GpuView| Sampled {
                    labels: seq![("card"@, item.card), ("driver"@, item.driver)],
                    value: item.busy_percent.thousandths,
                },
            )
            &&& samples(text, "bbtop_gpu_vram_used_bytes"@) == views(snapshot.gpus@).map_values(
                |item: GpuView| Sampled {
                    labels: seq![("card"@, item.card), ("driver"@, item.driver)],
                    value: decimal(item.vram_used_bytes as nat),
                },
            )
            &&& samples(text, "bbtop_gpu_vram_total_bytes"@) == views(snapshot.gpus@).map_values(
                |item: GpuView| Sampled {
                    labels: seq![("card"@, item.card), ("driver"@, item.driver)],
                    value: decimal(item.vram_total_bytes as nat),
                },
            )
            &&& samples(text, "bbtop_filesystem_size_bytes"@)
                == views(snapshot.filesystems@).map_values(
                |item: FilesystemView| Sampled {
                    labels: seq![("device"@, item.device), ("mountpoint"@, item.mountpoint),
                        ("fstype"@, item.filesystem_type)],
                    value: decimal(item.size_bytes as nat),
                },
            )
            &&& samples(text, "bbtop_filesystem_available_bytes"@)
                == views(snapshot.filesystems@).map_values(
                |item: FilesystemView| Sampled {
                    labels: seq![("device"@, item.device), ("mountpoint"@, item.mountpoint),
                        ("fstype"@, item.filesystem_type)],
                    value: decimal(item.available_bytes as nat),
                },
            )
            &&& samples(text, "bbtop_filesystem_used_bytes"@)
                == views(snapshot.filesystems@).map_values(
                |item: FilesystemView| Sampled {
                    labels: seq![("device"@, item.device), ("mountpoint"@, item.mountpoint),
                        ("fstype"@, item.filesystem_type)],
                    value: decimal(if item.size_bytes < item.available_bytes { 0 } else { (
                        item.size_bytes - item.available_bytes) as nat }),
                },
            )
        }),
{
    lemma_places();
    lemma_names();
    assert(samples(exposition(snapshot, limit), "bbtop_gpu_busy_percent"@)
        == views(snapshot.gpus@).map_values(
        |item: GpuView| Sampled { labels: seq![("card"@, item.card), ("driver"@, item.driver)],
            value: item.busy_percent.thousandths },
    )) by {
        lemma_exposition(snapshot, limit, "bbtop_gpu_busy_percent"@);
        lemma_part_gpus(snapshot, limit, "bbtop_gpu_busy_percent"@);
        lemma_kept_all(
            views(snapshot.gpus@),
            |item: GpuView| gpu_sample(item, "bbtop_gpu_busy_percent"@),
            |item: GpuView| Sampled { labels: seq![("card"@, item.card), ("driver"@, item.driver)],
                value: item.busy_percent.thousandths },
        );
    }
    assert(samples(exposition(snapshot, limit), "bbtop_gpu_vram_used_bytes"@)
        == views(snapshot.gpus@).map_values(
        |item: GpuView| Sampled { labels: seq![("card"@, item.card), ("driver"@, item.driver)],
            value: decimal(item.vram_used_bytes as nat) },
    )) by {
        lemma_exposition(snapshot, limit, "bbtop_gpu_vram_used_bytes"@);
        lemma_part_gpus(snapshot, limit, "bbtop_gpu_vram_used_bytes"@);
        lemma_kept_all(
            views(snapshot.gpus@),
            |item: GpuView| gpu_sample(item, "bbtop_gpu_vram_used_bytes"@),
            |item: GpuView| Sampled { labels: seq![("card"@, item.card), ("driver"@, item.driver)],
                value: decimal(item.vram_used_bytes as nat) },
        );
    }
    assert(samples(exposition(snapshot, limit), "bbtop_gpu_vram_total_bytes"@)
        == views(snapshot.gpus@).map_values(
        |item: GpuView| Sampled { labels: seq![("card"@, item.card), ("driver"@, item.driver)],
            value: decimal(item.vram_total_bytes as nat) },
    )) by {
        lemma_exposition(snapshot, limit, "bbtop_gpu_vram_total_bytes"@);
        lemma_part_gpus(snapshot, limit, "bbtop_gpu_vram_total_bytes"@);
        lemma_kept_all(
            views(snapshot.gpus@),
            |item: GpuView| gpu_sample(item, "bbtop_gpu_vram_total_bytes"@),
            |item: GpuView| Sampled { labels: seq![("card"@, item.card), ("driver"@, item.driver)],
                value: decimal(item.vram_total_bytes as nat) },
        );
    }
    assert(samples(exposition(snapshot, limit), "bbtop_filesystem_size_bytes"@)
        == views(snapshot.filesystems@).map_values(
        |item: FilesystemView| Sampled { labels: seq![("device"@, item.device),
            ("mountpoint"@, item.mountpoint), ("fstype"@, item.filesystem_type)],
            value: decimal(item.size_bytes as nat) },
    )) by {
        lemma_exposition(snapshot, limit, "bbtop_filesystem_size_bytes"@);
        lemma_part_filesystems(snapshot, limit, "bbtop_filesystem_size_bytes"@);
        lemma_kept_all(
            views(snapshot.filesystems@),
            |item: FilesystemView| filesystem_sample(item, "bbtop_filesystem_size_bytes"@),
            |item: FilesystemView| Sampled { labels: seq![("device"@, item.device),
                ("mountpoint"@, item.mountpoint), ("fstype"@, item.filesystem_type)],
                value: decimal(item.size_bytes as nat) },
        );
    }
    assert(samples(exposition(snapshot, limit), "bbtop_filesystem_available_bytes"@)
        == views(snapshot.filesystems@).map_values(
        |item: FilesystemView| Sampled { labels: seq![("device"@, item.device),
            ("mountpoint"@, item.mountpoint), ("fstype"@, item.filesystem_type)],
            value: decimal(item.available_bytes as nat) },
    )) by {
        lemma_exposition(snapshot, limit, "bbtop_filesystem_available_bytes"@);
        lemma_part_filesystems(snapshot, limit, "bbtop_filesystem_available_bytes"@);
        lemma_kept_all(
            views(snapshot.filesystems@),
            |item: FilesystemView| filesystem_sample(item, "bbtop_filesystem_available_bytes"@),
            |item: FilesystemView| Sampled { labels: seq![("device"@, item.device),
                ("mountpoint"@, item.mountpoint), ("fstype"@, item.filesystem_type)],
                value: decimal(item.available_bytes as nat) },
        );
    }
    assert(samples(exposition(snapshot, limit), "bbtop_filesystem_used_bytes"@)
        == views(snapshot.filesystems@).map_values(
        |item: FilesystemView| Sampled { labels: seq![("device"@, item.device),
            ("mountpoint"@, item.mountpoint), ("fstype"@, item.filesystem_type)],
            value: decimal(if item.size_bytes < item.available_bytes { 0 } else { (
            item.size_bytes - item.available_bytes) as nat }) },
    )) by {
        lemma_exposition(snapshot, limit, "bbtop_filesystem_used_bytes"@);
        lemma_part_filesystems(snapshot, limit, "bbtop_filesystem_used_bytes"@);
        lemma_kept_all(
            views(snapshot.filesystems@),
            |item: FilesystemView| filesystem_sample(item, "bbtop_filesystem_used_bytes"@),
            |item: FilesystemView| Sampled { labels: seq![("device"@, item.device),
                ("mountpoint"@, item.mountpoint), ("fstype"@, item.filesystem_type)],
                value: decimal(if item.size_bytes < item.available_bytes { 0 } else { (
                item.size_bytes - item.available_bytes) as nat }) },
        );
    }
}

proof fn lemma_process_samples(snapshot: Snapshot, limit: nat, name: Seq<char>)
    requires
        printable(snapshot),
        process_names(name),
    ensures
        samples(exposition(snapshot, limit), name) == kept(
            selection(views(snapshot.processes@), limit),
            |i: int| process_sample(views(snapshot.processes@)[i], name),
        ),
{
    lemma_parts(name);
    lemma_exposition(snapshot, limit, name);
    lemma_part_processes(snapshot, limit, name);
}

proof fn lemma_chosen(
    items: Seq<ProcessView>,
    limit: nat,
    name: Seq<char>,
    f: spec_fn(ProcessView) -> Sampled,
)
    requires
        forall|item: ProcessView| #[trigger] process_sample(item, name) == Some(f(item)),
    ensures
        kept(selection(items, limit), |i: int| process_sample(items[i], name)) == selection(
            items,
            limit,
        ).map_values(|i: int| items[i]).map_values(f),
{
    let chosen = selection(items, limit);
    let g = |i: int| f(items[i]);
    lemma_kept_all(chosen, |i: int| process_sample(items[i], name), g);
    assert(chosen.map_values(g) =~= chosen.map_values(|i: int| items[i]).map_values(f));
}

/// A reader of the exposition finds the chosen processes, each with its id and its name,
/// and what is known of it under the name of that.
pub proof fn law_the_processes_read_back(snapshot: Snapshot, limit: nat)
    requires
        printable(snapshot),
    ensures
        ({
            let text = exposition(snapshot, limit);
            let chosen = selection(views(snapshot.processes@), limit).map_values(
                |i: int| views(snapshot.processes@)[i],
            );
            &&& samples(text, "bbtop_process_cpu_usage_percent"@) == chosen.map_values(
                |item: ProcessView| Sampled {
                    labels: seq![("pid"@, decimal(item.pid as nat)), ("name"@, item.name)],
                    value: item.cpu_percent.thousandths,
                },
            )
            &&& samples(text, "bbtop_process_resident_memory_bytes"@) == chosen.map_values(
                |item: ProcessView| Sampled {
                    labels: seq![("pid"@, decimal(item.pid as nat)), ("name"@, item.name)],
                    value: decimal(item.rss_bytes as nat),
                },
            )
            &&& samples(text, "bbtop_process_virtual_memory_bytes"@) == chosen.map_values(
                |item: ProcessView| Sampled {
                    labels: seq![("pid"@, decimal(item.pid as nat)), ("name"@, item.name)],
                    value: decimal(item.virtual_bytes as nat),
                },
            )
            &&& samples(text, "bbtop_process_threads"@) == chosen.map_values(
                |item: ProcessView| Sampled {
                    labels: seq![("pid"@, decimal(item.pid as nat)), ("name"@, item.name)],
                    value: decimal(item.threads as nat),
                },
            )
            &&& samples(text, "bbtop_process_state"@) == chosen.map_values(
                |item: ProcessView| Sampled {
                    labels: seq![("pid"@, decimal(item.pid as nat)), ("name"@, item.name),
                        ("state"@, seq![item.state])],
                    value: "1"@,
                },
            )
            &&& samples(text, "bbtop_process_read_bytes_total"@) == chosen.map_values(
                |item: ProcessView| Sampled {
                    labels: seq![("pid"@, decimal(item.pid as nat)), ("name"@, item.name)],
                    value: decimal(item.read_bytes as nat),
                },
            )
            &&& samples(text, "bbtop_process_write_bytes_total"@) == chosen.map_values(
                |item: ProcessView| Sampled {
                    labels: seq![("pid"@, decimal(item.pid as nat)), ("name"@, item.name)],
                    value: decimal(item.write_bytes as nat),
                },
            )
            &&& samples(text, "bbtop_process_network_receive_bytes_total"@) == chosen.map_values(
                |item: ProcessView| Sampled {
                    labels: seq![("pid"@, decimal(item.pid as nat)), ("name"@, item.name)],
                    value: decimal(item.network_receive_bytes as nat),
                },
            )
            &&& samples(text, "bbtop_process_network_transmit_bytes_total"@) == chosen.map_values(
                |item: ProcessView| Sampled {
                    labels: seq![("pid"@, decimal(item.pid as nat)), ("name"@, item.name)],
                    value: decimal(item.network_transmit_bytes as nat),
                },
            )
            &&& samples(text, "bbtop_process_gpu_usage_percent"@) == chosen.map_values(
                |item: ProcessView| Sampled {
                    labels: seq![("pid"@, decimal(item.pid as nat)), ("name"@, item.name)],
                    value: item.gpu_percent.thousandths,
                },
            )
            &&& samples(text, "bbtop_process_gpu_vram_bytes"@) == chosen.map_values(
                |item: ProcessView| Sampled {
                    labels: seq![("pid"@, decimal(item.pid as nat)), ("name"@, item.name)],
                    value: decimal(item.gpu_vram_bytes as nat),
                },
            )
        }),
{
    lemma_names();
    let items = views(snapshot.processes@);
    let chosen = selection(items, limit).map_values(|i: int| items[i]);
    assert(samples(exposition(snapshot, limit), "bbtop_process_cpu_usage_percent"@)
        == chosen.map_values(
        |item: ProcessView| Sampled { labels: seq![("pid"@, decimal(item.pid as nat)),
            ("name"@, item.name)], value: item.cpu_percent.thousandths },
    )) by {
        lemma_process_samples(snapshot, limit, "bbtop_process_cpu_usage_percent"@);
        lemma_chosen(
            items,
            limit,
            "bbtop_process_cpu_usage_percent"@,
            |item: ProcessView| Sampled { labels: seq![("pid"@, decimal(item.pid as nat)),
                ("name"@, item.name)], value: item.cpu_percent.thousandths },
        );
    }
    assert(samples(exposition(snapshot, limit), "bbtop_process_resident_memory_bytes"@)
        == chosen.map_values(
        |item: ProcessView| Sampled { labels: seq![("pid"@, decimal(item.pid as nat)),
            ("name"@, item.name)], value: decimal(item.rss_bytes as nat) },
    )) by {
        lemma_process_samples(snapshot, limit, "bbtop_process_resident_memory_bytes"@);
        lemma_chosen(
            items,
            limit,
            "bbtop_process_resident_memory_bytes"@,
            |item: ProcessView| Sampled { labels: seq![("pid"@, decimal(item.pid as nat)),
                ("name"@, item.name)], value: decimal(item.rss_bytes as nat) },
        );
    }
    assert(samples(exposition(snapshot, limit), "bbtop_process_virtual_memory_bytes"@)
        == chosen.map_values(
        |item: ProcessView| Sampled { labels: seq![("pid"@, decimal(item.pid as nat)),
            ("name"@, item.name)], value: decimal(item.virtual_bytes as nat) },
    )) by {
        lemma_process_samples(snapshot, limit, "bbtop_process_virtual_memory_bytes"@);
        lemma_chosen(
            items,
            limit,
            "bbtop_process_virtual_memory_bytes"@,
            |item: ProcessView| Sampled { labels: seq![("pid"@, decimal(item.pid as nat)),
                ("name"@, item.name)], value: decimal(item.virtual_bytes as nat) },
        );
    }
    assert(samples(exposition(snapshot, limit), "bbtop_process_threads"@) == chosen.map_values(
        |item: ProcessView| Sampled { labels: seq![("pid"@, decimal(item.pid as nat)),
            ("name"@, item.name)], value: decimal(item.threads as nat) },
    )) by {
        lemma_process_samples(snapshot, limit, "bbtop_process_threads"@);
        lemma_chosen(
            items,
            limit,
            "bbtop_process_threads"@,
            |item: ProcessView| Sampled { labels: seq![("pid"@, decimal(item.pid as nat)),
                ("name"@, item.name)], value: decimal(item.threads as nat) },
        );
    }
    assert(samples(exposition(snapshot, limit), "bbtop_process_state"@) == chosen.map_values(
        |item: ProcessView| Sampled { labels: seq![("pid"@, decimal(item.pid as nat)),
            ("name"@, item.name), ("state"@, seq![item.state])], value: "1"@ },
    )) by {
        lemma_process_samples(snapshot, limit, "bbtop_process_state"@);
        lemma_chosen(
            items,
            limit,
            "bbtop_process_state"@,
            |item: ProcessView| Sampled { labels: seq![("pid"@, decimal(item.pid as nat)),
                ("name"@, item.name), ("state"@, seq![item.state])], value: "1"@ },
        );
    }
    assert(samples(exposition(snapshot, limit), "bbtop_process_read_bytes_total"@)
        == chosen.map_values(
        |item: ProcessView| Sampled { labels: seq![("pid"@, decimal(item.pid as nat)),
            ("name"@, item.name)], value: decimal(item.read_bytes as nat) },
    )) by {
        lemma_process_samples(snapshot, limit, "bbtop_process_read_bytes_total"@);
        lemma_chosen(
            items,
            limit,
            "bbtop_process_read_bytes_total"@,
            |item: ProcessView| Sampled { labels: seq![("pid"@, decimal(item.pid as nat)),
                ("name"@, item.name)], value: decimal(item.read_bytes as nat) },
        );
    }
    assert(samples(exposition(snapshot, limit), "bbtop_process_write_bytes_total"@)
        == chosen.map_values(
        |item: ProcessView| Sampled { labels: seq![("pid"@, decimal(item.pid as nat)),
            ("name"@, item.name)], value: decimal(item.write_bytes as nat) },
    )) by {
        lemma_process_samples(snapshot, limit, "bbtop_process_write_bytes_total"@);
        lemma_chosen(
            items,
            limit,
            "bbtop_process_write_bytes_total"@,
            |item: ProcessView| Sampled { labels: seq![("pid"@, decimal(item.pid as nat)),
                ("name"@, item.name)], value: decimal(item.write_bytes as nat) },
        );
    }
    assert(samples(exposition(snapshot, limit), "bbtop_process_network_receive_bytes_total"@)
        == chosen.map_values(
        |item: ProcessView| Sampled { labels: seq![("pid"@, decimal(item.pid as nat)),
            ("name"@, item.name)], value: decimal(item.network_receive_bytes as nat) },
    )) by {
        lemma_process_samples(snapshot, limit, "bbtop_process_network_receive_bytes_total"@);
        lemma_chosen(
            items,
            limit,
            "bbtop_process_network_receive_bytes_total"@,
            |item: ProcessView| Sampled { labels: seq![("pid"@, decimal(item.pid as nat)),
                ("name"@, item.name)], value: decimal(item.network_receive_bytes as nat) },
        );
    }
    assert(samples(exposition(snapshot, limit), "bbtop_process_network_transmit_bytes_total"@)
        == chosen.map_values(
        |item: ProcessView| Sampled { labels: seq![("pid"@, decimal(item.pid as nat)),
            ("name"@, item.name)], value: decimal(item.network_transmit_bytes as nat) },
    )) by {
        lemma_process_samples(snapshot, limit, "bbtop_process_network_transmit_bytes_total"@);
        lemma_chosen(
            items,
            limit,
            "bbtop_process_network_transmit_bytes_total"@,
            |item: ProcessView| Sampled { labels: seq![("pid"@, decimal(item.pid as nat)),
                ("name"@, item.name)], value: decimal(item.network_transmit_bytes as nat) },
        );
    }
    assert(samples(exposition(snapshot, limit), "bbtop_process_gpu_usage_percent"@)
        == chosen.map_values(
        |item: ProcessView| Sampled { labels: seq![("pid"@, decimal(item.pid as nat)),
            ("name"@, item.name)], value: item.gpu_percent.thousandths },
    )) by {
        lemma_process_samples(snapshot, limit, "bbtop_process_gpu_usage_percent"@);
        lemma_chosen(
            items,
            limit,
            "bbtop_process_gpu_usage_percent"@,
            |item: ProcessView| Sampled { labels: seq![("pid"@, decimal(item.pid as nat)),
                ("name"@, item.name)], value: item.gpu_percent.thousandths },
        );
    }
    assert(samples(exposition(snapshot, limit), "bbtop_process_gpu_vram_bytes"@)
        == chosen.map_values(
        |item: ProcessView| Sampled { labels: seq![("pid"@, decimal(item.pid as nat)),
            ("name"@, item.name)], value: decimal(item.gpu_vram_bytes as nat) },
    )) by {
        lemma_process_samples(snapshot, limit, "bbtop_process_gpu_vram_bytes"@);
        lemma_chosen(
            items,
            limit,
            "bbtop_process_gpu_vram_bytes"@,
            |item: ProcessView| Sampled { labels: seq![("pid"@, decimal(item.pid as nat)),
                ("name"@, item.name)], value: decimal(item.gpu_vram_bytes as nat) },
        );
    }
}

/// A reader of the exposition finds the batteries with their names and their status,
/// each with its power, and with its charge where that is known.
pub proof fn law_the_batteries_read_back(snapshot: Snapshot, limit: nat)
    requires
        printable(snapshot),
    ensures
        ({
            let text = exposition(snapshot, limit);
            let items = views(snapshot.battery_power@);
            &&& samples(text, "bbtop_battery_power_watts"@) == items.map_values(
                |item: BatteryPowerView| Sampled {
                    labels: seq![("battery"@, item.battery), ("status"@, item.status)],
                    value: item.watts.millionths,
                },
            )
            &&& samples(text, "bbtop_battery_charge_percent"@) == items.filter(
                |item: BatteryPowerView| item.charge_percent is Some,
            ).map_values(
                |item: BatteryPowerView| Sampled {
                    labels: seq![("battery"@, item.battery), ("status"@, item.status)],
                    value: item.charge_percent->0.thousandths,
                },
            )
        }),
{
    lemma_names();
    let items = views(snapshot.battery_power@);
    lemma_places();
    lemma_exposition(snapshot, limit, "bbtop_battery_power_watts"@);
    lemma_part_batteries(snapshot, limit, "bbtop_battery_power_watts"@);
    lemma_kept_all(
        items,
        |item: BatteryPowerView| battery_sample(item, "bbtop_battery_power_watts"@),
        |item: BatteryPowerView| Sampled {
            labels: seq![("battery"@, item.battery), ("status"@, item.status)],
            value: item.watts.millionths,
        },
    );
    lemma_exposition(snapshot, limit, "bbtop_battery_charge_percent"@);
    lemma_part_batteries(snapshot, limit, "bbtop_battery_charge_percent"@);
    lemma_charged(items);
}

proof fn lemma_charged(items: Seq<BatteryPowerView>)
    ensures
        kept(
            items,
            |item: BatteryPowerView| battery_sample(item, "bbtop_battery_charge_percent"@),
        ) == items.filter(|item: BatteryPowerView| item.charge_percent is Some).map_values(
            |item: BatteryPowerView| Sampled {
                labels: seq![("battery"@, item.battery), ("status"@, item.status)],
                value: item.charge_percent->0.thousandths,
            },
        ),
    decreases items.len(),
{
    lemma_names();
    reveal(Seq::filter);
    let p = |item: BatteryPowerView| item.charge_percent is Some;
    let g = |item: BatteryPowerView| Sampled {
        labels: seq![("battery"@, item.battery), ("status"@, item.status)],
        value: item.charge_percent->0.thousandths,
    };
    let f = |item: BatteryPowerView| battery_sample(item, "bbtop_battery_charge_percent"@);
    if items.len() > 0 {
        lemma_charged(items.drop_last());
        assert(kept(items, f) =~= items.filter(p).map_values(g));
    } else {
        assert(kept(items, f) =~= items.filter(p).map_values(g));
    }
}

/// The draw of the laptop is estimated by the battery that runs down: under its name a
/// reader finds nothing while none does or where it gives nothing, what the one gives
/// that does, and the sum of what they give where there are several.
pub proof fn law_the_estimate_reads_back(snapshot: Snapshot, limit: nat)
    requires
        printable(snapshot),
    ensures
        ({
            let found = samples(exposition(snapshot, limit), "bbtop_laptop_power_estimate_watts"@);
            let running = views(snapshot.battery_power@).filter(
                |item: BatteryPowerView| item.status == "Discharging"@,
            );
            let labels = seq![("source"@, "battery"@)];
            &&& running.len() == 0 ==> found == Seq::<Sampled>::empty()
            &&& running.len() == 1 ==> found == if running[0].watts.positive() {
                seq![Sampled { labels, value: running[0].watts.millionths }]
            } else {
                Seq::empty()
            }
            &&& running.len() > 1 ==> found == if snapshot.discharge_watts@.positive() {
                seq![Sampled { labels, value: snapshot.discharge_watts@.millionths }]
            } else {
                Seq::empty()
            }
        }),
{
    lemma_names();
    let items = views(snapshot.battery_power@);
    lemma_places();
    lemma_exposition(snapshot, limit, "bbtop_laptop_power_estimate_watts"@);
    lemma_part_batteries(snapshot, limit, "bbtop_laptop_power_estimate_watts"@);
    lemma_running(items);
}

proof fn lemma_running(items: Seq<BatteryPowerView>)
    ensures
        discharges(items) == items.filter(
            |item: BatteryPowerView| item.status == "Discharging"@,
        ).map_values(|item: BatteryPowerView| item.watts),
    decreases items.len(),
{
    reveal(Seq::filter);
    let p = |item: BatteryPowerView| item.status == "Discharging"@;
    let g = |item: BatteryPowerView| item.watts;
    if items.len() > 0 {
        lemma_running(items.drop_last());
    }
    assert(discharges(items) =~= items.filter(p).map_values(g));
}

/// A reader of the exposition finds the name of the host.
pub proof fn law_the_hostname_reads_back(snapshot: Snapshot, limit: nat)
    requires
        printable(snapshot),
    ensures
        samples(exposition(snapshot, limit), "bbtop_info"@) == seq![
            Sampled { labels: seq![("hostname"@, snapshot.hostname@)], value: "1"@ },
        ],
{
    lemma_places();
    lemma_exposition(snapshot, limit, "bbtop_info"@);
    lemma_part_info(snapshot, limit, "bbtop_info"@);
}

/// Whatever has a sample is declared just once: as a counter if its name ends in
/// `_total`, else as a gauge.
pub proof fn law_what_is_sampled_is_declared(snapshot: Snapshot, limit: nat, name: Seq<char>)
    requires
        printable(snapshot),
        samples(exposition(snapshot, limit), name).len() > 0,
    ensures
        kinds(exposition(snapshot, limit), name) == seq![
            if ends(name, "_total"@) {
                "counter"@
            } else {
                "gauge"@
            },
        ],
{
    lemma_exposition(snapshot, limit, name);
}

/// Snapshots with one exposition agree in what is a number of the host.
pub proof fn law_expositions_tell_snapshots_apart(a: Snapshot, b: Snapshot, limit: nat)
    requires
        printable(a),
        printable(b),
        exposition(a, limit) == exposition(b, limit),
    ensures
        a.cpu_count == b.cpu_count,
        a.memory_total == b.memory_total,
        a.memory_available == b.memory_available,
        a.swap_total == b.swap_total,
        a.swap_free == b.swap_free,
        a.disk_read_bytes == b.disk_read_bytes,
        a.disk_write_bytes == b.disk_write_bytes,
        a.processes_total == b.processes_total,
        a.processes_running == b.processes_running,
        a.timestamp == b.timestamp,
        a.cpu_percent.shortest@ == b.cpu_percent.shortest@,
        a.uptime.shortest@ == b.uptime.shortest@,
        a.hostname@ == b.hostname@,
{
    law_the_host_reads_back(a, limit);
    law_the_host_reads_back(b, limit);
    law_the_activity_reads_back(a, limit);
    law_the_activity_reads_back(b, limit);
    law_the_hostname_reads_back(a, limit);
    law_the_hostname_reads_back(b, limit);
    let labels = samples(exposition(a, limit), "bbtop_info"@)[0].labels;
    assert(labels[0].1 == a.hostname@);
    assert(labels[0].1 == b.hostname@);
}

} // verus!
