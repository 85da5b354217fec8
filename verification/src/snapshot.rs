//! What is known of a host at one moment.

use vstd::prelude::*;

verus! {

/// A real number, as the texts that are printed of it and as a number to order
/// it by.
#[derive(Clone, Debug)]
pub struct Figure {
    /// Orders figures: a larger rank is a larger figure. Zero has rank 0, what is
    /// negative a rank below, and infinity the rank `INFINITE_RANK`, above which
    /// there is only what is no number.
    pub rank: i64,
    /// The shortest text that reads back as the figure.
    pub shortest: String,
    /// The figure without decimals.
    pub units: String,
    /// The figure with one decimal.
    pub tenths: String,
    /// The figure with two decimals.
    pub hundredths: String,
    /// The figure with three decimals.
    pub thousandths: String,
    /// The figure with six decimals.
    pub millionths: String,
}

/// The rank of positive infinity.
pub const INFINITE_RANK: i64 = 0x7ff0_0000_0000_0000;

/// A figure as texts and a rank.
#[verifier::ext_equal]
pub struct FigureView {
    pub rank: i64,
    pub shortest: Seq<char>,
    pub units: Seq<char>,
    pub tenths: Seq<char>,
    pub hundredths: Seq<char>,
    pub thousandths: Seq<char>,
    pub millionths: Seq<char>,
}

impl View for Figure {
    type V = FigureView;

    open spec fn view(&self) -> FigureView {
        FigureView {
            rank: self.rank,
            shortest: self.shortest@,
            units: self.units@,
            tenths: self.tenths@,
            hundredths: self.hundredths@,
            thousandths: self.thousandths@,
            millionths: self.millionths@,
        }
    }
}

impl FigureView {
    /// Zero.
    pub open spec fn zero() -> FigureView {
        FigureView {
            rank: 0,
            shortest: "0"@,
            units: "0"@,
            tenths: "0.0"@,
            hundredths: "0.00"@,
            thousandths: "0.000"@,
            millionths: "0.000000"@,
        }
    }

    /// Whether the figure is a number above zero.
    pub open spec fn positive(self) -> bool {
        0 < self.rank <= INFINITE_RANK
    }
}

impl Figure {
    /// Zero.
    pub fn zero() -> (r: Figure)
        ensures
            r@ == FigureView::zero(),
    {
        Figure {
            rank: 0,
            shortest: "0".to_owned(),
            units: "0".to_owned(),
            tenths: "0.0".to_owned(),
            hundredths: "0.00".to_owned(),
            thousandths: "0.000".to_owned(),
            millionths: "0.000000".to_owned(),
        }
    }

    /// Whether the figure is a number above zero.
    pub fn is_positive(&self) -> (r: bool)
        ensures
            r == self@.positive(),
    {
        0 < self.rank && self.rank <= INFINITE_RANK
    }
}

impl Default for Figure {
    fn default() -> (r: Self)
        ensures
            r@ == FigureView::zero(),
    {
        Figure::zero()
    }
}

/// The view of an optional figure.
pub open spec fn optional_figure(figure: Option<Figure>) -> Option<FigureView> {
    match figure {
        Some(figure) => Some(figure@),
        None => None,
    }
}

/// One process.
#[derive(Clone, Debug, Default)]
pub struct Process {
    pub pid: u32,
    pub name: String,
    pub state: char,
    pub cpu_percent: Figure,
    pub rss_bytes: u64,
    pub virtual_bytes: u64,
    pub threads: u64,
    pub read_bytes: u64,
    pub write_bytes: u64,
    pub network_receive_bytes: u64,
    pub network_transmit_bytes: u64,
    pub gpu_percent: Figure,
    pub gpu_vram_bytes: u64,
}

/// The view of `Process`.
#[verifier::ext_equal]
pub struct ProcessView {
    pub pid: u32,
    pub name: Seq<char>,
    pub state: char,
    pub cpu_percent: FigureView,
    pub rss_bytes: u64,
    pub virtual_bytes: u64,
    pub threads: u64,
    pub read_bytes: u64,
    pub write_bytes: u64,
    pub network_receive_bytes: u64,
    pub network_transmit_bytes: u64,
    pub gpu_percent: FigureView,
    pub gpu_vram_bytes: u64,
}

impl View for Process {
    type V = ProcessView;

    open spec fn view(&self) -> ProcessView {
        ProcessView {
            pid: self.pid,
            name: self.name@,
            state: self.state,
            cpu_percent: self.cpu_percent@,
            rss_bytes: self.rss_bytes,
            virtual_bytes: self.virtual_bytes,
            threads: self.threads,
            read_bytes: self.read_bytes,
            write_bytes: self.write_bytes,
            network_receive_bytes: self.network_receive_bytes,
            network_transmit_bytes: self.network_transmit_bytes,
            gpu_percent: self.gpu_percent@,
            gpu_vram_bytes: self.gpu_vram_bytes,
        }
    }
}

/// What a browser reports of one of its content processes.
#[derive(Clone, Debug, Default)]
pub struct BrowserTab {
    pub pid: u32,
    /// The share of a core, as the browser's collector wrote it: a real number.
    pub cpu_percent: String,
    pub memory_bytes: u64,
    /// How many documents share this process, and therefore this figure.
    pub windows: u32,
    /// Host the tab is on. Titles alone can be useless: several sites publish
    /// pages titled things like "User-ID".
    pub site: String,
    pub title: String,
}

/// The view of `BrowserTab`.
#[verifier::ext_equal]
pub struct BrowserTabView {
    pub pid: u32,
    pub cpu_percent: Seq<char>,
    pub memory_bytes: u64,
    pub windows: u32,
    pub site: Seq<char>,
    pub title: Seq<char>,
}

impl View for BrowserTab {
    type V = BrowserTabView;

    open spec fn view(&self) -> BrowserTabView {
        BrowserTabView {
            pid: self.pid,
            cpu_percent: self.cpu_percent@,
            memory_bytes: self.memory_bytes,
            windows: self.windows,
            site: self.site@,
            title: self.title@,
        }
    }
}

/// A graphics card as its driver reports it.
#[derive(Clone, Debug, Default)]
pub struct Gpu {
    pub card: String,
    pub driver: String,
    pub busy_percent: Figure,
    pub vram_used_bytes: u64,
    pub vram_total_bytes: u64,
}

/// The view of `Gpu`.
#[verifier::ext_equal]
pub struct GpuView {
    pub card: Seq<char>,
    pub driver: Seq<char>,
    pub busy_percent: FigureView,
    pub vram_used_bytes: u64,
    pub vram_total_bytes: u64,
}

impl View for Gpu {
    type V = GpuView;

    open spec fn view(&self) -> GpuView {
        GpuView {
            card: self.card@,
            driver: self.driver@,
            busy_percent: self.busy_percent@,
            vram_used_bytes: self.vram_used_bytes,
            vram_total_bytes: self.vram_total_bytes,
        }
    }
}

/// A network interface and what it has carried.
#[derive(Clone, Debug, Default)]
pub struct NetworkInterface {
    pub name: String,
    /// `physical` when the kernel backs the interface with a real device.
    /// Bridges, tunnels and loopback are `virtual` and carry copies of traffic
    /// that its uplink counts again, so summing every interface triple counts.
    pub kind: String,
    pub receive_bytes: u64,
    pub transmit_bytes: u64,
}

/// The view of `NetworkInterface`.
#[verifier::ext_equal]
pub struct NetworkInterfaceView {
    pub name: Seq<char>,
    pub kind: Seq<char>,
    pub receive_bytes: u64,
    pub transmit_bytes: u64,
}

impl View for NetworkInterface {
    type V = NetworkInterfaceView;

    open spec fn view(&self) -> NetworkInterfaceView {
        NetworkInterfaceView {
            name: self.name@,
            kind: self.kind@,
            receive_bytes: self.receive_bytes,
            transmit_bytes: self.transmit_bytes,
        }
    }
}

/// A fan and its speed.
#[derive(Clone, Debug, Default)]
pub struct Fan {
    pub chip: String,
    pub sensor: String,
    pub rpm: u64,
}

/// The view of `Fan`.
#[verifier::ext_equal]
pub struct FanView {
    pub chip: Seq<char>,
    pub sensor: Seq<char>,
    pub rpm: u64,
}

impl View for Fan {
    type V = FanView;

    open spec fn view(&self) -> FanView {
        FanView {
            chip: self.chip@,
            sensor: self.sensor@,
            rpm: self.rpm,
        }
    }
}

/// A temperature sensor.
#[derive(Clone, Debug, Default)]
pub struct Temperature {
    pub chip: String,
    pub sensor: String,
    pub celsius: Figure,
}

/// The view of `Temperature`.
#[verifier::ext_equal]
pub struct TemperatureView {
    pub chip: Seq<char>,
    pub sensor: Seq<char>,
    pub celsius: FigureView,
}

impl View for Temperature {
    type V = TemperatureView;

    open spec fn view(&self) -> TemperatureView {
        TemperatureView {
            chip: self.chip@,
            sensor: self.sensor@,
            celsius: self.celsius@,
        }
    }
}

/// A power sensor, and whether it reports an instant or an average.
#[derive(Clone, Debug, Default)]
pub struct Power {
    pub chip: String,
    pub sensor: String,
    pub reading: String,
    pub watts: Figure,
}

/// The view of `Power`.
#[verifier::ext_equal]
pub struct PowerView {
    pub chip: Seq<char>,
    pub sensor: Seq<char>,
    pub reading: Seq<char>,
    pub watts: FigureView,
}

impl View for Power {
    type V = PowerView;

    open spec fn view(&self) -> PowerView {
        PowerView {
            chip: self.chip@,
            sensor: self.sensor@,
            reading: self.reading@,
            watts: self.watts@,
        }
    }
}

/// A battery and the power that flows through it.
#[derive(Clone, Debug, Default)]
pub struct BatteryPower {
    pub battery: String,
    pub status: String,
    pub watts: Figure,
    pub charge_percent: Option<Figure>,
}

/// The view of `BatteryPower`.
#[verifier::ext_equal]
pub struct BatteryPowerView {
    pub battery: Seq<char>,
    pub status: Seq<char>,
    pub watts: FigureView,
    pub charge_percent: Option<FigureView>,
}

impl View for BatteryPower {
    type V = BatteryPowerView;

    open spec fn view(&self) -> BatteryPowerView {
        BatteryPowerView {
            battery: self.battery@,
            status: self.status@,
            watts: self.watts@,
            charge_percent: optional_figure(self.charge_percent),
        }
    }
}

/// A voltage or a current.
#[derive(Clone, Debug, Default)]
pub struct ElectricalReading {
    pub chip: String,
    pub sensor: String,
    pub value: Figure,
}

/// The view of `ElectricalReading`.
#[verifier::ext_equal]
pub struct ElectricalReadingView {
    pub chip: Seq<char>,
    pub sensor: Seq<char>,
    pub value: FigureView,
}

impl View for ElectricalReading {
    type V = ElectricalReadingView;

    open spec fn view(&self) -> ElectricalReadingView {
        ElectricalReadingView {
            chip: self.chip@,
            sensor: self.sensor@,
            value: self.value@,
        }
    }
}

/// A temperature that a sensor should stay within.
#[derive(Clone, Debug, Default)]
pub struct TemperatureLimit {
    pub chip: String,
    pub sensor: String,
    pub limit: String,
    pub celsius: Figure,
}

/// The view of `TemperatureLimit`.
#[verifier::ext_equal]
pub struct TemperatureLimitView {
    pub chip: Seq<char>,
    pub sensor: Seq<char>,
    pub limit: Seq<char>,
    pub celsius: FigureView,
}

impl View for TemperatureLimit {
    type V = TemperatureLimitView;

    open spec fn view(&self) -> TemperatureLimitView {
        TemperatureLimitView {
            chip: self.chip@,
            sensor: self.sensor@,
            limit: self.limit@,
            celsius: self.celsius@,
        }
    }
}

/// The alarm state of a temperature sensor.
#[derive(Clone, Debug, Default)]
pub struct TemperatureAlarm {
    pub chip: String,
    pub sensor: String,
    pub value: u64,
}

/// The view of `TemperatureAlarm`.
#[verifier::ext_equal]
pub struct TemperatureAlarmView {
    pub chip: Seq<char>,
    pub sensor: Seq<char>,
    pub value: u64,
}

impl View for TemperatureAlarm {
    type V = TemperatureAlarmView;

    open spec fn view(&self) -> TemperatureAlarmView {
        TemperatureAlarmView {
            chip: self.chip@,
            sensor: self.sensor@,
            value: self.value,
        }
    }
}

/// The current frequency of a logical CPU.
#[derive(Clone, Debug, Default)]
pub struct CpuFrequency {
    pub cpu: String,
    pub hertz: u64,
}

/// The view of `CpuFrequency`.
#[verifier::ext_equal]
pub struct CpuFrequencyView {
    pub cpu: Seq<char>,
    pub hertz: u64,
}

impl View for CpuFrequency {
    type V = CpuFrequencyView;

    open spec fn view(&self) -> CpuFrequencyView {
        CpuFrequencyView {
            cpu: self.cpu@,
            hertz: self.hertz,
        }
    }
}

/// An external power supply.
#[derive(Clone, Debug, Default)]
pub struct MainsSupply {
    pub supply: String,
    pub online: bool,
}

/// The view of `MainsSupply`.
#[verifier::ext_equal]
pub struct MainsSupplyView {
    pub supply: Seq<char>,
    pub online: bool,
}

impl View for MainsSupply {
    type V = MainsSupplyView;

    open spec fn view(&self) -> MainsSupplyView {
        MainsSupplyView {
            supply: self.supply@,
            online: self.online,
        }
    }
}

/// The health log of an NVMe device.
#[derive(Clone, Debug, Default)]
pub struct NvmeSmart {
    pub device: String,
    pub percentage_used: u64,
    pub available_spare: u64,
    pub available_spare_threshold: u64,
    pub critical_warning: u64,
    pub data_units_read: u64,
    pub data_units_written: u64,
    pub power_cycles: u64,
    pub power_on_hours: u64,
    pub unsafe_shutdowns: u64,
    pub media_errors: u64,
    pub error_log_entries: u64,
}

/// The view of `NvmeSmart`.
#[verifier::ext_equal]
pub struct NvmeSmartView {
    pub device: Seq<char>,
    pub percentage_used: u64,
    pub available_spare: u64,
    pub available_spare_threshold: u64,
    pub critical_warning: u64,
    pub data_units_read: u64,
    pub data_units_written: u64,
    pub power_cycles: u64,
    pub power_on_hours: u64,
    pub unsafe_shutdowns: u64,
    pub media_errors: u64,
    pub error_log_entries: u64,
}

impl View for NvmeSmart {
    type V = NvmeSmartView;

    open spec fn view(&self) -> NvmeSmartView {
        NvmeSmartView {
            device: self.device@,
            percentage_used: self.percentage_used,
            available_spare: self.available_spare,
            available_spare_threshold: self.available_spare_threshold,
            critical_warning: self.critical_warning,
            data_units_read: self.data_units_read,
            data_units_written: self.data_units_written,
            power_cycles: self.power_cycles,
            power_on_hours: self.power_on_hours,
            unsafe_shutdowns: self.unsafe_shutdowns,
            media_errors: self.media_errors,
            error_log_entries: self.error_log_entries,
        }
    }
}

/// A mounted filesystem and its space.
#[derive(Clone, Debug, Default)]
pub struct Filesystem {
    pub device: String,
    pub mountpoint: String,
    pub filesystem_type: String,
    pub size_bytes: u64,
    pub available_bytes: u64,
}

/// The view of `Filesystem`.
#[verifier::ext_equal]
pub struct FilesystemView {
    pub device: Seq<char>,
    pub mountpoint: Seq<char>,
    pub filesystem_type: Seq<char>,
    pub size_bytes: u64,
    pub available_bytes: u64,
}

impl View for Filesystem {
    type V = FilesystemView;

    open spec fn view(&self) -> FilesystemView {
        FilesystemView {
            device: self.device@,
            mountpoint: self.mountpoint@,
            filesystem_type: self.filesystem_type@,
            size_bytes: self.size_bytes,
            available_bytes: self.available_bytes,
        }
    }
}

/// A host at one moment.
#[derive(Clone, Debug)]
pub struct Snapshot {
    pub timestamp: u64,
    pub hostname: String,
    /// ACPI power profile the firmware is in: low-power, balanced, performance.
    pub platform_profile: String,
    pub cpu_percent: Figure,
    pub cpu_count: usize,
    pub memory_total: u64,
    pub memory_available: u64,
    pub swap_total: u64,
    pub swap_free: u64,
    pub load: [Figure; 3],
    pub uptime: Figure,
    pub network_receive_bytes: u64,
    pub network_transmit_bytes: u64,
    pub networks: Vec<NetworkInterface>,
    pub disk_read_bytes: u64,
    pub disk_write_bytes: u64,
    pub processes_total: usize,
    pub processes_running: usize,
    pub processes: Vec<Process>,
    pub fans: Vec<Fan>,
    pub temperatures: Vec<Temperature>,
    pub power: Vec<Power>,
    pub battery_power: Vec<BatteryPower>,
    /// The sum of the watts of the batteries that are discharging. It counts where
    /// there are several.
    pub discharge_watts: Figure,
    pub voltages: Vec<ElectricalReading>,
    pub currents: Vec<ElectricalReading>,
    pub temperature_limits: Vec<TemperatureLimit>,
    pub temperature_alarms: Vec<TemperatureAlarm>,
    pub cpu_frequencies: Vec<CpuFrequency>,
    pub gpus: Vec<Gpu>,
    pub browser_tabs: Vec<BrowserTab>,
    pub mains_supplies: Vec<MainsSupply>,
    pub nvme_smart: Vec<NvmeSmart>,
    pub filesystems: Vec<Filesystem>,
}

impl Snapshot {
    /// Whether nothing is known of the host.
    pub open spec fn is_empty(self) -> bool {
        &&& self.timestamp == 0
        &&& self.hostname@ == Seq::<char>::empty()
        &&& self.platform_profile@ == Seq::<char>::empty()
        &&& self.cpu_percent@ == FigureView::zero()
        &&& self.cpu_count == 0
        &&& self.memory_total == 0
        &&& self.memory_available == 0
        &&& self.swap_total == 0
        &&& self.swap_free == 0
        &&& self.load@[0]@ == FigureView::zero()
        &&& self.load@[1]@ == FigureView::zero()
        &&& self.load@[2]@ == FigureView::zero()
        &&& self.uptime@ == FigureView::zero()
        &&& self.network_receive_bytes == 0
        &&& self.network_transmit_bytes == 0
        &&& self.networks@.len() == 0
        &&& self.disk_read_bytes == 0
        &&& self.disk_write_bytes == 0
        &&& self.processes_total == 0
        &&& self.processes_running == 0
        &&& self.processes@.len() == 0
        &&& self.fans@.len() == 0
        &&& self.temperatures@.len() == 0
        &&& self.power@.len() == 0
        &&& self.battery_power@.len() == 0
        &&& self.discharge_watts@ == FigureView::zero()
        &&& self.voltages@.len() == 0
        &&& self.currents@.len() == 0
        &&& self.temperature_limits@.len() == 0
        &&& self.temperature_alarms@.len() == 0
        &&& self.cpu_frequencies@.len() == 0
        &&& self.gpus@.len() == 0
        &&& self.browser_tabs@.len() == 0
        &&& self.mains_supplies@.len() == 0
        &&& self.nvme_smart@.len() == 0
        &&& self.filesystems@.len() == 0
    }

    /// A host of which nothing is known.
    pub fn empty() -> (r: Snapshot)
        ensures
            r.is_empty(),
    {
        Snapshot {
            timestamp: 0,
            hostname: String::new(),
            platform_profile: String::new(),
            cpu_percent: Figure::zero(),
            cpu_count: 0,
            memory_total: 0,
            memory_available: 0,
            swap_total: 0,
            swap_free: 0,
            load: [Figure::zero(), Figure::zero(), Figure::zero()],
            uptime: Figure::zero(),
            network_receive_bytes: 0,
            network_transmit_bytes: 0,
            networks: Vec::new(),
            disk_read_bytes: 0,
            disk_write_bytes: 0,
            processes_total: 0,
            processes_running: 0,
            processes: Vec::new(),
            fans: Vec::new(),
            temperatures: Vec::new(),
            power: Vec::new(),
            battery_power: Vec::new(),
            discharge_watts: Figure::zero(),
            voltages: Vec::new(),
            currents: Vec::new(),
            temperature_limits: Vec::new(),
            temperature_alarms: Vec::new(),
            cpu_frequencies: Vec::new(),
            gpus: Vec::new(),
            browser_tabs: Vec::new(),
            mains_supplies: Vec::new(),
            nvme_smart: Vec::new(),
            filesystems: Vec::new(),
        }
    }
}

impl Default for Snapshot {
    fn default() -> (r: Self)
        ensures
            r.is_empty(),
    {
        Snapshot::empty()
    }
}

/// A figure is positive if it ranks above zero; zero is not, nor is what ranks above the
/// infinite, which is no number.
pub proof fn law_positive_figures_rank_above_zero(figure: FigureView)
    ensures
        !FigureView::zero().positive(),
        figure.rank <= 0 ==> !figure.positive(),
        0 < figure.rank <= 0x7ff0_0000_0000_0000 ==> figure.positive(),
        figure.rank > 0x7ff0_0000_0000_0000 ==> !figure.positive(),
{
}

} // verus!
