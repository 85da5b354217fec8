//! The Prometheus exposition of a snapshot.

use crate::list::{kept, lemma_kept_next, lemma_kept_none, lemma_kept_source};
use crate::number::{decimal, decimal_text, law_decimal_reads_back, parsed_u64};
use crate::order::positions;
use crate::selection::{in_range, select_processes, selection};
use crate::snapshot::{
    BatteryPower, BatteryPowerView, CpuFrequency, CpuFrequencyView, ElectricalReading,
    ElectricalReadingView, Fan, FanView, Figure, FigureView, Filesystem, FilesystemView, Gpu,
    GpuView, MainsSupply, MainsSupplyView, NetworkInterface, NetworkInterfaceView, NvmeSmart,
    NvmeSmartView, Power, PowerView, Process, ProcessView, Snapshot, Temperature, TemperatureAlarm,
    TemperatureAlarmView, TemperatureLimit, TemperatureLimitView, TemperatureView,
};
use crate::text::{characters, ends, equals, strip_suffix, views};
use vstd::prelude::*;
use vstd::string::StringExecFns;

verus! {

/// What stands for a character in a label value.
pub open spec fn escaped_char(c: char) -> Seq<char> {
    if c == '\\' {
        seq!['\\', '\\']
    } else if c == '\n' {
        seq!['\\', 'n']
    } else if c == '"' {
        seq!['\\', '"']
    } else {
        seq![c]
    }
}

/// A label value, with what would end it or its line escaped.
pub open spec fn escaped(s: Seq<char>) -> Seq<char>
    decreases s.len(),
{
    if s.len() == 0 {
        Seq::empty()
    } else {
        escaped_char(s[0]) + escaped(s.skip(1))
    }
}

/// What a reader of the exposition takes a label value for.
pub open spec fn unescaped(s: Seq<char>) -> Seq<char>
    decreases s.len(),
{
    if s.len() == 0 {
        Seq::empty()
    } else if s[0] == '\\' && s.len() > 1 {
        seq![
            if s[1] == 'n' {
                '\n'
            } else {
                s[1]
            },
        ] + unescaped(s.skip(2))
    } else {
        seq![s[0]] + unescaped(s.skip(1))
    }
}

/// A label value reads back as it was.
pub proof fn law_label_reads_back(s: Seq<char>)
    ensures
        unescaped(escaped(s)) == s,
    decreases s.len(),
{
    if s.len() > 0 {
        law_label_reads_back(s.skip(1));
        let e = escaped(s);
        let rest = escaped(s.skip(1));
        assert(s =~= seq![s[0]] + s.skip(1));
        if escaped_char(s[0]).len() == 2 {
            assert(e.skip(2) =~= rest);
        } else {
            assert(e.skip(1) =~= rest);
        }
    }
}

/// Where a reader takes a label value that begins at `at` to end: at the first
/// quotation mark that is not escaped.
pub open spec fn label_end(s: Seq<char>, at: int) -> int
    decreases s.len() + 1 - at,
{
    if at >= s.len() {
        s.len() as int
    } else if s[at] == '\\' {
        label_end(s, at + 2)
    } else if s[at] == '"' {
        at
    } else {
        label_end(s, at + 1)
    }
}

/// A label value ends for a reader where it was written to end, whatever it holds
/// and whatever follows, and holds no line feed.
pub proof fn law_label_stays_in_its_quotes(before: Seq<char>, s: Seq<char>, after: Seq<char>)
    ensures
        label_end(before + escaped(s) + seq!['"'] + after, before.len() as int) == before.len()
            + escaped(s).len(),
        forall|i: int| 0 <= i < escaped(s).len() ==> escaped(s)[i] != '\n',
    decreases s.len(),
{
    let line = before + escaped(s) + seq!['"'] + after;
    if s.len() == 0 {
        assert(line[before.len() as int] == '"');
    } else {
        let first = escaped_char(s[0]);
        let rest = escaped(s.skip(1));
        law_label_stays_in_its_quotes(before + first, s.skip(1), after);
        assert(line =~= before + first + rest + seq!['"'] + after);
        assert(line[before.len() as int] == first[0]);
        if first.len() == 2 {
            assert(line[before.len() as int + 1] == first[1]);
        }
        assert forall|i: int| 0 <= i < escaped(s).len() implies escaped(s)[i] != '\n' by {
            if i >= first.len() {
                assert(escaped(s)[i] == rest[i - first.len()]);
            }
        }
    }
}

/// Escapes a label value.
pub fn escape_label(value: &str) -> (r: String)
    ensures
        r@ == escaped(value@),
{
    let chars: Vec<char> = characters(value);
    let mut r: String = String::new();
    let mut i: usize = 0;
    assert(chars@.skip(0) =~= chars@);
    assert(r@ + escaped(chars@.skip(0)) =~= escaped(chars@));
    while i < chars.len()
        invariant
            i <= chars@.len(),
            r@ + escaped(chars@.skip(i as int)) == escaped(chars@),
        decreases chars@.len() - i,
    {
        let c: char = chars[i];
        let ghost before = r@;
        if c == '\\' {
            r.push('\\');
            r.push('\\');
        } else if c == '\n' {
            r.push('\\');
            r.push('n');
        } else if c == '"' {
            r.push('\\');
            r.push('"');
        } else {
            r.push(c);
        }
        assert(r@ =~= before + escaped_char(c));
        assert(chars@.skip(i as int).skip(1) =~= chars@.skip(i + 1));
        assert(r@ + escaped(chars@.skip(i + 1)) =~= before + escaped(chars@.skip(i as int)));
        i += 1;
    }
    assert(r@ =~= r@ + escaped(chars@.skip(i as int)));
    r
}

/// Texts one after the other.
pub open spec fn joined(parts: Seq<Seq<char>>) -> Seq<char>
    decreases parts.len(),
{
    if parts.len() == 0 {
        Seq::empty()
    } else {
        joined(parts.drop_last()) + parts.last()
    }
}

proof fn lemma_joined_next(parts: Seq<Seq<char>>, i: int)
    requires
        0 <= i < parts.len(),
    ensures
        joined(parts.take(i + 1)) == joined(parts.take(i)) + parts[i],
{
    assert(parts.take(i + 1).drop_last() =~= parts.take(i));
    assert(parts.take(i + 1).last() == parts[i]);
}

/// The line that gives the type of a metric.
pub open spec fn type_of(name: Seq<char>, kind: Seq<char>) -> Seq<char> {
    "# TYPE "@ + name + " "@ + kind + "\n"@
}

/// The line that says what a metric is.
pub open spec fn help_of(name: Seq<char>, help: Seq<char>) -> Seq<char> {
    "# HELP "@ + name + " "@ + help + "\n"@
}

/// The line of a metric without labels.
pub open spec fn plain_sample(name: Seq<char>, value: Seq<char>) -> Seq<char> {
    name + " "@ + value + "\n"@
}

/// The line of a metric with labels.
pub open spec fn sample_of(name: Seq<char>, labels: Seq<char>, value: Seq<char>) -> Seq<char> {
    name + "{"@ + labels + "} "@ + value + "\n"@
}

/// A metric without labels, with its type.
pub open spec fn metric_of(name: Seq<char>, kind: Seq<char>, value: Seq<char>) -> Seq<char> {
    type_of(name, kind) + plain_sample(name, value)
}

/// A label.
pub open spec fn label_of(key: Seq<char>, value: Seq<char>) -> Seq<char> {
    key + "=\""@ + escaped(value) + "\""@
}

/// A label whose value is written as it is.
pub open spec fn bare_label_of(key: Seq<char>, value: Seq<char>) -> Seq<char> {
    key + "=\""@ + value + "\""@
}

/// Two labels or lists of labels.
pub open spec fn both(a: Seq<char>, b: Seq<char>) -> Seq<char> {
    a + ","@ + b
}

/// What a metric is by its name: a counter if the name ends in `_total`, else a gauge.
pub open spec fn kind_of(name: Seq<char>) -> Seq<char> {
    if ends(name, "_total"@) {
        "counter"@
    } else {
        "gauge"@
    }
}

/// The line that gives the type of a metric by its name.
pub open spec fn series_of(name: Seq<char>) -> Seq<char> {
    type_of(name, kind_of(name))
}

/// The two lines before the samples of a gauge.
pub open spec fn gauge_of(name: Seq<char>, help: Seq<char>) -> Seq<char> {
    help_of(name, help) + type_of(name, "gauge"@)
}

fn type_line(name: &str, kind: &str) -> (r: String)
    ensures
        r@ == type_of(name@, kind@),
{
    let mut r: String = "# TYPE ".to_owned();
    r.append(name);
    r.append(" ");
    r.append(kind);
    r.append("\n");
    r
}

fn help_line(name: &str, help: &str) -> (r: String)
    ensures
        r@ == help_of(name@, help@),
{
    let mut r: String = "# HELP ".to_owned();
    r.append(name);
    r.append(" ");
    r.append(help);
    r.append("\n");
    r
}

fn sample(name: &str, labels: &str, value: &str) -> (r: String)
    ensures
        r@ == sample_of(name@, labels@, value@),
{
    let mut r: String = name.to_owned();
    r.append("{");
    r.append(labels);
    r.append("} ");
    r.append(value);
    r.append("\n");
    r
}

/// Writes a metric without labels, with its type.
pub fn metric(output: &mut String, name: &str, kind: &str, value: &str)
    ensures
        final(output)@ == old(output)@ + metric_of(name@, kind@, value@),
{
    let mut r: String = type_line(name, kind);
    let mut line: String = name.to_owned();
    line.append(" ");
    line.append(value);
    line.append("\n");
    r.append(line.as_str());
    output.append(r.as_str());
}

fn label(key: &str, value: &str) -> (r: String)
    ensures
        r@ == label_of(key@, value@),
{
    let mut r: String = key.to_owned();
    r.append("=\"");
    r.append(escape_label(value).as_str());
    r.append("\"");
    r
}

fn bare_label(key: &str, value: &str) -> (r: String)
    ensures
        r@ == bare_label_of(key@, value@),
{
    let mut r: String = key.to_owned();
    r.append("=\"");
    r.append(value);
    r.append("\"");
    r
}

fn and(a: String, b: String) -> (r: String)
    ensures
        r@ == both(a@, b@),
{
    let mut r: String = a;
    r.append(",");
    r.append(b.as_str());
    r
}

fn series(name: &str) -> (r: String)
    ensures
        r@ == series_of(name@),
{
    let chars: Vec<char> = characters(name);
    if strip_suffix(chars.as_slice(), "_total").is_some() {
        type_line(name, "counter")
    } else {
        type_line(name, "gauge")
    }
}

fn gauge(name: &str, help: &str) -> (r: String)
    ensures
        r@ == gauge_of(name@, help@),
{
    let mut r: String = help_line(name, help);
    r.append(type_line(name, "gauge").as_str());
    r
}

fn size_text(n: usize) -> (r: String)
    ensures
        r@ == decimal(n as nat),
{
    decimal_text(n as u64)
}

/// The samples of a network interface.
pub open spec fn network_lines_of(item: NetworkInterfaceView) -> Seq<char> {
    let labels = both(label_of("interface"@, item.name), bare_label_of("kind"@, item.kind));
    sample_of("bbtop_network_receive_bytes_total"@, labels, decimal(item.receive_bytes as nat))
        + sample_of(
            "bbtop_network_transmit_bytes_total"@,
            labels,
            decimal(item.transmit_bytes as nat),
        )
}

fn network_lines(item: &NetworkInterface) -> (r: String)
    ensures
        r@ == network_lines_of(item@),
{
    let labels: String = and(
        label("interface", item.name.as_str()),
        bare_label("kind", item.kind.as_str()),
    );
    let mut r: String = sample(
        "bbtop_network_receive_bytes_total",
        labels.as_str(),
        decimal_text(item.receive_bytes).as_str(),
    );
    r.append(
        sample(
            "bbtop_network_transmit_bytes_total",
            labels.as_str(),
            decimal_text(item.transmit_bytes).as_str(),
        ).as_str(),
    );
    r
}

fn network_lines_list(items: &Vec<NetworkInterface>) -> (r: String)
    ensures
        r@ == joined(views(items@).map_values(|item: NetworkInterfaceView| network_lines_of(item))),
{
    let ghost all = views(items@).map_values(|item: NetworkInterfaceView| network_lines_of(item));
    let mut r: String = String::new();
    let mut i: usize = 0;
    while i < items.len()
        invariant
            i <= items@.len(),
            all == views(items@).map_values(|item: NetworkInterfaceView| network_lines_of(item)),
            r@ == joined(all.take(i as int)),
        decreases items@.len() - i,
    {
        r.append(network_lines(&items[i]).as_str());
        proof {
            lemma_joined_next(all, i as int);
        }
        i += 1;
    }
    assert(all.take(i as int) =~= all);
    r
}

/// The network counters, one series per interface.
#[verifier::opaque]
pub open spec fn networks_of(items: Seq<NetworkInterfaceView>) -> Seq<char> {
    type_of("bbtop_network_receive_bytes_total"@, "counter"@)
        + type_of("bbtop_network_transmit_bytes_total"@, "counter"@)
        + joined(items.map_values(|item: NetworkInterfaceView| network_lines_of(item)))
}

fn networks(items: &Vec<NetworkInterface>) -> (r: String)
    ensures
        r@ == networks_of(views(items@)),
{
    proof {
        reveal(networks_of);
    }
    let mut r: String = type_line("bbtop_network_receive_bytes_total", "counter");
    r.append(type_line("bbtop_network_transmit_bytes_total", "counter").as_str());
    r.append(network_lines_list(items).as_str());
    r
}

/// The sample of a fan.
pub open spec fn fan_line_of(item: FanView) -> Seq<char> {
    let labels = both(label_of("chip"@, item.chip), label_of("sensor"@, item.sensor));
    sample_of("bbtop_fan_speed_rpm"@, labels, decimal(item.rpm as nat))
}

fn fan_line(item: &Fan) -> (r: String)
    ensures
        r@ == fan_line_of(item@),
{
    let labels: String = and(
        label("chip", item.chip.as_str()),
        label("sensor", item.sensor.as_str()),
    );
    sample("bbtop_fan_speed_rpm", labels.as_str(), decimal_text(item.rpm).as_str())
}

fn fan_line_list(items: &Vec<Fan>) -> (r: String)
    ensures
        r@ == joined(views(items@).map_values(|item: FanView| fan_line_of(item))),
{
    let ghost all = views(items@).map_values(|item: FanView| fan_line_of(item));
    let mut r: String = String::new();
    let mut i: usize = 0;
    while i < items.len()
        invariant
            i <= items@.len(),
            all == views(items@).map_values(|item: FanView| fan_line_of(item)),
            r@ == joined(all.take(i as int)),
        decreases items@.len() - i,
    {
        r.append(fan_line(&items[i]).as_str());
        proof {
            lemma_joined_next(all, i as int);
        }
        i += 1;
    }
    assert(all.take(i as int) =~= all);
    r
}

/// The speeds of the fans.
#[verifier::opaque]
pub open spec fn fans_of(items: Seq<FanView>) -> Seq<char> {
    gauge_of("bbtop_fan_speed_rpm"@, "Fan speed reported by Linux hwmon"@)
        + joined(items.map_values(|item: FanView| fan_line_of(item)))
}

fn fans(items: &Vec<Fan>) -> (r: String)
    ensures
        r@ == fans_of(views(items@)),
{
    proof {
        reveal(fans_of);
    }
    let mut r: String = gauge("bbtop_fan_speed_rpm", "Fan speed reported by Linux hwmon");
    r.append(fan_line_list(items).as_str());
    r
}

/// The sample of a temperature sensor.
pub open spec fn temperature_line_of(item: TemperatureView) -> Seq<char> {
    let labels = both(label_of("chip"@, item.chip), label_of("sensor"@, item.sensor));
    sample_of("bbtop_temperature_celsius"@, labels, item.celsius.thousandths)
}

fn temperature_line(item: &Temperature) -> (r: String)
    ensures
        r@ == temperature_line_of(item@),
{
    let labels: String = and(
        label("chip", item.chip.as_str()),
        label("sensor", item.sensor.as_str()),
    );
    sample("bbtop_temperature_celsius", labels.as_str(), item.celsius.thousandths.as_str())
}

fn temperature_line_list(items: &Vec<Temperature>) -> (r: String)
    ensures
        r@ == joined(views(items@).map_values(|item: TemperatureView| temperature_line_of(item))),
{
    let ghost all = views(items@).map_values(|item: TemperatureView| temperature_line_of(item));
    let mut r: String = String::new();
    let mut i: usize = 0;
    while i < items.len()
        invariant
            i <= items@.len(),
            all == views(items@).map_values(|item: TemperatureView| temperature_line_of(item)),
            r@ == joined(all.take(i as int)),
        decreases items@.len() - i,
    {
        r.append(temperature_line(&items[i]).as_str());
        proof {
            lemma_joined_next(all, i as int);
        }
        i += 1;
    }
    assert(all.take(i as int) =~= all);
    r
}

/// The temperatures.
#[verifier::opaque]
pub open spec fn temperatures_of(items: Seq<TemperatureView>) -> Seq<char> {
    gauge_of("bbtop_temperature_celsius"@, "Temperature reported by Linux hwmon"@)
        + joined(items.map_values(|item: TemperatureView| temperature_line_of(item)))
}

fn temperatures(items: &Vec<Temperature>) -> (r: String)
    ensures
        r@ == temperatures_of(views(items@)),
{
    proof {
        reveal(temperatures_of);
    }
    let mut r: String = gauge("bbtop_temperature_celsius", "Temperature reported by Linux hwmon");
    r.append(temperature_line_list(items).as_str());
    r
}

/// The sample of a power sensor.
pub open spec fn power_line_of(item: PowerView) -> Seq<char> {
    let labels = both(
        both(label_of("chip"@, item.chip), label_of("sensor"@, item.sensor)),
        label_of("reading"@, item.reading),
    );
    sample_of("bbtop_power_watts"@, labels, item.watts.millionths)
}

fn power_line(item: &Power) -> (r: String)
    ensures
        r@ == power_line_of(item@),
{
    let labels: String = and(
        and(label("chip", item.chip.as_str()), label("sensor", item.sensor.as_str())),
        label("reading", item.reading.as_str()),
    );
    sample("bbtop_power_watts", labels.as_str(), item.watts.millionths.as_str())
}

fn power_line_list(items: &Vec<Power>) -> (r: String)
    ensures
        r@ == joined(views(items@).map_values(|item: PowerView| power_line_of(item))),
{
    let ghost all = views(items@).map_values(|item: PowerView| power_line_of(item));
    let mut r: String = String::new();
    let mut i: usize = 0;
    while i < items.len()
        invariant
            i <= items@.len(),
            all == views(items@).map_values(|item: PowerView| power_line_of(item)),
            r@ == joined(all.take(i as int)),
        decreases items@.len() - i,
    {
        r.append(power_line(&items[i]).as_str());
        proof {
            lemma_joined_next(all, i as int);
        }
        i += 1;
    }
    assert(all.take(i as int) =~= all);
    r
}

/// The power readings.
#[verifier::opaque]
pub open spec fn powers_of(items: Seq<PowerView>) -> Seq<char> {
    gauge_of("bbtop_power_watts"@, "Power reported by Linux hwmon in watts"@)
        + joined(items.map_values(|item: PowerView| power_line_of(item)))
}

fn powers(items: &Vec<Power>) -> (r: String)
    ensures
        r@ == powers_of(views(items@)),
{
    proof {
        reveal(powers_of);
    }
    let mut r: String = gauge("bbtop_power_watts", "Power reported by Linux hwmon in watts");
    r.append(power_line_list(items).as_str());
    r
}

/// The samples of a battery.
pub open spec fn battery_lines_of(item: BatteryPowerView) -> Seq<char> {
    let labels = both(label_of("battery"@, item.battery), label_of("status"@, item.status));
    let power = sample_of("bbtop_battery_power_watts"@, labels, item.watts.millionths);
    match item.charge_percent {
        Some(charge) => power + sample_of(
            "bbtop_battery_charge_percent"@,
            labels,
            charge.thousandths,
        ),
        None => power,
    }
}

fn battery_lines(item: &BatteryPower) -> (r: String)
    ensures
        r@ == battery_lines_of(item@),
{
    let labels: String = and(
        label("battery", item.battery.as_str()),
        label("status", item.status.as_str()),
    );
    let mut r: String = sample(
        "bbtop_battery_power_watts",
        labels.as_str(),
        item.watts.millionths.as_str(),
    );
    if let Some(charge) = &item.charge_percent {
        r.append(
            sample(
                "bbtop_battery_charge_percent",
                labels.as_str(),
                charge.thousandths.as_str(),
            ).as_str(),
        );
    }
    r
}

fn battery_lines_list(items: &Vec<BatteryPower>) -> (r: String)
    ensures
        r@ == joined(views(items@).map_values(|item: BatteryPowerView| battery_lines_of(item))),
{
    let ghost all = views(items@).map_values(|item: BatteryPowerView| battery_lines_of(item));
    let mut r: String = String::new();
    let mut i: usize = 0;
    while i < items.len()
        invariant
            i <= items@.len(),
            all == views(items@).map_values(|item: BatteryPowerView| battery_lines_of(item)),
            r@ == joined(all.take(i as int)),
        decreases items@.len() - i,
    {
        r.append(battery_lines(&items[i]).as_str());
        proof {
            lemma_joined_next(all, i as int);
        }
        i += 1;
    }
    assert(all.take(i as int) =~= all);
    r
}

/// Whether a battery runs down.
pub open spec fn discharging(battery: BatteryPowerView) -> bool {
    battery.status == "Discharging"@
}

/// Whether a battery runs down, by its status.
pub fn is_discharging(status: &str) -> (r: bool)
    ensures
        r == (status@ == "Discharging"@),
{
    equals(characters(status).as_slice(), "Discharging")
}

/// What the discharging batteries give, each for itself.
pub open spec fn discharges(batteries: Seq<BatteryPowerView>) -> Seq<FigureView> {
    kept(
        batteries,
        |battery: BatteryPowerView|
            if discharging(battery) {
                Some(battery.watts)
            } else {
                None
            },
    )
}

/// The estimated draw of the laptop: what the one battery gives that runs down, or
/// `sum` where there are several. There is none where no battery runs down, or
/// where it is not above zero.
pub open spec fn estimate(batteries: Seq<BatteryPowerView>, sum: FigureView) -> Option<FigureView> {
    let found = discharges(batteries);
    let watts = if found.len() == 1 {
        found[0]
    } else {
        sum
    };
    if found.len() > 0 && watts.positive() {
        Some(watts)
    } else {
        None
    }
}

/// The batteries and the estimated draw of the laptop.
#[verifier::opaque]
pub open spec fn batteries_of(items: Seq<BatteryPowerView>, sum: FigureView) -> Seq<char> {
    let samples = gauge_of(
        "bbtop_battery_power_watts"@,
        "Electrical power flowing through the battery"@,
    ) + gauge_of(
        "bbtop_laptop_power_estimate_watts"@,
        "Estimated whole-laptop draw while discharging"@,
    ) + gauge_of("bbtop_battery_charge_percent"@, "Battery state of charge in percent"@) + joined(
        items.map_values(|item: BatteryPowerView| battery_lines_of(item)),
    );
    match estimate(items, sum) {
        Some(watts) => samples + sample_of(
            "bbtop_laptop_power_estimate_watts"@,
            "source=\"battery\""@,
            watts.millionths,
        ),
        None => samples,
    }
}

spec fn referred_figure(figure: Option<&Figure>) -> Option<FigureView> {
    match figure {
        Some(figure) => Some(figure@),
        None => None,
    }
}

fn estimated<'a>(items: &'a Vec<BatteryPower>, sum: &'a Figure) -> (r: Option<&'a Figure>)
    ensures
        referred_figure(r) == estimate(views(items@), sum@),
{
    let ghost seen = views(items@);
    let ghost f = |battery: BatteryPowerView|
        if discharging(battery) {
            Some(battery.watts)
        } else {
            None
        };
    let mut found: Vec<&Figure> = Vec::new();
    let ghost mut watts: Seq<FigureView> = Seq::empty();
    let mut i: usize = 0;
    proof {
        lemma_kept_none(seen, f);
    }
    while i < items.len()
        invariant
            i <= items@.len(),
            seen == views(items@),
            f == |battery: BatteryPowerView|
                if discharging(battery) {
                    Some(battery.watts)
                } else {
                    None
                },
            watts == kept(seen.take(i as int), f),
            found@.len() == watts.len(),
            forall|k: int| 0 <= k < watts.len() ==> #[trigger] watts[k] == found@[k]@,
        decreases items@.len() - i,
    {
        proof {
            lemma_kept_next(seen, f, i as int);
            assert(seen[i as int] == items@[i as int]@);
        }
        if is_discharging(items[i].status.as_str()) {
            found.push(&items[i].watts);
            proof {
                watts = watts.push(items@[i as int].watts@);
            }
        }
        i += 1;
    }
    assert(watts == discharges(seen));
    let watts: &'a Figure = if found.len() == 1 {
        found[0]
    } else {
        sum
    };
    if found.len() > 0 && watts.is_positive() {
        Some(watts)
    } else {
        None
    }
}

fn batteries(items: &Vec<BatteryPower>, sum: &Figure) -> (r: String)
    ensures
        r@ == batteries_of(views(items@), sum@),
{
    proof {
        reveal(batteries_of);
    }
    let mut r: String = gauge(
        "bbtop_battery_power_watts",
        "Electrical power flowing through the battery",
    );
    r.append(
        gauge(
            "bbtop_laptop_power_estimate_watts",
            "Estimated whole-laptop draw while discharging",
        ).as_str(),
    );
    r.append(
        gauge("bbtop_battery_charge_percent", "Battery state of charge in percent").as_str(),
    );
    r.append(battery_lines_list(items).as_str());
    if let Some(watts) = estimated(items, sum) {
        r.append(
            sample(
                "bbtop_laptop_power_estimate_watts",
                "source=\"battery\"",
                watts.millionths.as_str(),
            ).as_str(),
        );
    }
    r
}

/// The draw is estimated only while a battery runs down.
pub proof fn law_no_estimate_without_discharge(batteries: Seq<BatteryPowerView>, sum: FigureView)
    requires
        forall|i: int| 0 <= i < batteries.len() ==> !discharging(#[trigger] batteries[i]),
    ensures
        estimate(batteries, sum) is None,
{
    if discharges(batteries).len() > 0 {
        let f = |battery: BatteryPowerView|
            if discharging(battery) {
                Some(battery.watts)
            } else {
                None
            };
        let i = lemma_kept_source(batteries, f, 0);
        assert(!discharging(batteries[i]));
    }
}

/// The sample of a voltage or a current.
pub open spec fn reading_line_of(name: Seq<char>, item: ElectricalReadingView) -> Seq<char> {
    let labels = both(label_of("chip"@, item.chip), label_of("sensor"@, item.sensor));
    sample_of(name, labels, item.value.millionths)
}

/// The readings of one electrical quantity.
#[verifier::opaque]
pub open spec fn readings_of(
    name: Seq<char>,
    help: Seq<char>,
    items: Seq<ElectricalReadingView>,
) -> Seq<char> {
    gauge_of(name, help) + joined(
        items.map_values(|item: ElectricalReadingView| reading_line_of(name, item)),
    )
}

/// Writes the readings of one electrical quantity.
pub fn render_electrical_readings(
    output: &mut String,
    name: &str,
    help: &str,
    readings: &Vec<ElectricalReading>,
)
    ensures
        final(output)@ == old(output)@ + readings_of(name@, help@, views(readings@)),
{
    proof {
        reveal(readings_of);
    }
    let ghost all = views(readings@).map_values(
        |item: ElectricalReadingView| reading_line_of(name@, item),
    );
    let mut lines: String = String::new();
    let mut i: usize = 0;
    while i < readings.len()
        invariant
            i <= readings@.len(),
            all == views(readings@).map_values(
                |item: ElectricalReadingView| reading_line_of(name@, item),
            ),
            lines@ == joined(all.take(i as int)),
        decreases readings@.len() - i,
    {
        let item: &ElectricalReading = &readings[i];
        let labels: String = and(
            label("chip", item.chip.as_str()),
            label("sensor", item.sensor.as_str()),
        );
        lines.append(sample(name, labels.as_str(), item.value.millionths.as_str()).as_str());
        proof {
            lemma_joined_next(all, i as int);
        }
        i += 1;
    }
    assert(all.take(i as int) =~= all);
    let mut r: String = gauge(name, help);
    r.append(lines.as_str());
    output.append(r.as_str());
}

/// The sample of a temperature limit.
pub open spec fn limit_line_of(item: TemperatureLimitView) -> Seq<char> {
    let labels = both(
        both(label_of("chip"@, item.chip), label_of("sensor"@, item.sensor)),
        label_of("limit"@, item.limit),
    );
    sample_of("bbtop_temperature_limit_celsius"@, labels, item.celsius.thousandths)
}

fn limit_line(item: &TemperatureLimit) -> (r: String)
    ensures
        r@ == limit_line_of(item@),
{
    let labels: String = and(
        and(label("chip", item.chip.as_str()), label("sensor", item.sensor.as_str())),
        label("limit", item.limit.as_str()),
    );
    sample("bbtop_temperature_limit_celsius", labels.as_str(), item.celsius.thousandths.as_str())
}

fn limit_line_list(items: &Vec<TemperatureLimit>) -> (r: String)
    ensures
        r@ == joined(views(items@).map_values(|item: TemperatureLimitView| limit_line_of(item))),
{
    let ghost all = views(items@).map_values(|item: TemperatureLimitView| limit_line_of(item));
    let mut r: String = String::new();
    let mut i: usize = 0;
    while i < items.len()
        invariant
            i <= items@.len(),
            all == views(items@).map_values(|item: TemperatureLimitView| limit_line_of(item)),
            r@ == joined(all.take(i as int)),
        decreases items@.len() - i,
    {
        r.append(limit_line(&items[i]).as_str());
        proof {
            lemma_joined_next(all, i as int);
        }
        i += 1;
    }
    assert(all.take(i as int) =~= all);
    r
}

/// The temperature limits.
#[verifier::opaque]
pub open spec fn limits_of(items: Seq<TemperatureLimitView>) -> Seq<char> {
    gauge_of("bbtop_temperature_limit_celsius"@, "Temperature limits reported by Linux hwmon"@)
        + joined(items.map_values(|item: TemperatureLimitView| limit_line_of(item)))
}

fn limits(items: &Vec<TemperatureLimit>) -> (r: String)
    ensures
        r@ == limits_of(views(items@)),
{
    proof {
        reveal(limits_of);
    }
    let mut r: String = gauge(
        "bbtop_temperature_limit_celsius",
        "Temperature limits reported by Linux hwmon",
    );
    r.append(limit_line_list(items).as_str());
    r
}

/// The sample of a temperature alarm.
pub open spec fn alarm_line_of(item: TemperatureAlarmView) -> Seq<char> {
    let labels = both(label_of("chip"@, item.chip), label_of("sensor"@, item.sensor));
    sample_of("bbtop_temperature_alarm"@, labels, decimal(item.value as nat))
}

fn alarm_line(item: &TemperatureAlarm) -> (r: String)
    ensures
        r@ == alarm_line_of(item@),
{
    let labels: String = and(
        label("chip", item.chip.as_str()),
        label("sensor", item.sensor.as_str()),
    );
    sample("bbtop_temperature_alarm", labels.as_str(), decimal_text(item.value).as_str())
}

fn alarm_line_list(items: &Vec<TemperatureAlarm>) -> (r: String)
    ensures
        r@ == joined(views(items@).map_values(|item: TemperatureAlarmView| alarm_line_of(item))),
{
    let ghost all = views(items@).map_values(|item: TemperatureAlarmView| alarm_line_of(item));
    let mut r: String = String::new();
    let mut i: usize = 0;
    while i < items.len()
        invariant
            i <= items@.len(),
            all == views(items@).map_values(|item: TemperatureAlarmView| alarm_line_of(item)),
            r@ == joined(all.take(i as int)),
        decreases items@.len() - i,
    {
        r.append(alarm_line(&items[i]).as_str());
        proof {
            lemma_joined_next(all, i as int);
        }
        i += 1;
    }
    assert(all.take(i as int) =~= all);
    r
}

/// The temperature alarms.
#[verifier::opaque]
pub open spec fn alarms_of(items: Seq<TemperatureAlarmView>) -> Seq<char> {
    gauge_of("bbtop_temperature_alarm"@, "Temperature alarm state reported by Linux hwmon"@)
        + joined(items.map_values(|item: TemperatureAlarmView| alarm_line_of(item)))
}

fn alarms(items: &Vec<TemperatureAlarm>) -> (r: String)
    ensures
        r@ == alarms_of(views(items@)),
{
    proof {
        reveal(alarms_of);
    }
    let mut r: String = gauge(
        "bbtop_temperature_alarm",
        "Temperature alarm state reported by Linux hwmon",
    );
    r.append(alarm_line_list(items).as_str());
    r
}

/// The sample of a logical CPU.
pub open spec fn frequency_line_of(item: CpuFrequencyView) -> Seq<char> {
    let labels = label_of("cpu"@, item.cpu);
    sample_of("bbtop_cpu_frequency_hertz"@, labels, decimal(item.hertz as nat))
}

fn frequency_line(item: &CpuFrequency) -> (r: String)
    ensures
        r@ == frequency_line_of(item@),
{
    let labels: String = label("cpu", item.cpu.as_str());
    sample("bbtop_cpu_frequency_hertz", labels.as_str(), decimal_text(item.hertz).as_str())
}

fn frequency_line_list(items: &Vec<CpuFrequency>) -> (r: String)
    ensures
        r@ == joined(views(items@).map_values(|item: CpuFrequencyView| frequency_line_of(item))),
{
    let ghost all = views(items@).map_values(|item: CpuFrequencyView| frequency_line_of(item));
    let mut r: String = String::new();
    let mut i: usize = 0;
    while i < items.len()
        invariant
            i <= items@.len(),
            all == views(items@).map_values(|item: CpuFrequencyView| frequency_line_of(item)),
            r@ == joined(all.take(i as int)),
        decreases items@.len() - i,
    {
        r.append(frequency_line(&items[i]).as_str());
        proof {
            lemma_joined_next(all, i as int);
        }
        i += 1;
    }
    assert(all.take(i as int) =~= all);
    r
}

/// The frequencies of the logical CPUs.
#[verifier::opaque]
pub open spec fn frequencies_of(items: Seq<CpuFrequencyView>) -> Seq<char> {
    gauge_of("bbtop_cpu_frequency_hertz"@, "Current CPU frequency by logical CPU"@)
        + joined(items.map_values(|item: CpuFrequencyView| frequency_line_of(item)))
}

fn frequencies(items: &Vec<CpuFrequency>) -> (r: String)
    ensures
        r@ == frequencies_of(views(items@)),
{
    proof {
        reveal(frequencies_of);
    }
    let mut r: String = gauge("bbtop_cpu_frequency_hertz", "Current CPU frequency by logical CPU");
    r.append(frequency_line_list(items).as_str());
    r
}

/// One for what holds, zero for what does not.
pub open spec fn flag(holds: bool) -> Seq<char> {
    if holds {
        "1"@
    } else {
        "0"@
    }
}

fn flag_text(holds: bool) -> (r: String)
    ensures
        r@ == flag(holds),
{
    if holds {
        "1".to_owned()
    } else {
        "0".to_owned()
    }
}

/// The sample of an external power supply.
pub open spec fn supply_line_of(item: MainsSupplyView) -> Seq<char> {
    let labels = label_of("supply"@, item.supply);
    sample_of("bbtop_mains_online"@, labels, flag(item.online))
}

fn supply_line(item: &MainsSupply) -> (r: String)
    ensures
        r@ == supply_line_of(item@),
{
    let labels: String = label("supply", item.supply.as_str());
    sample("bbtop_mains_online", labels.as_str(), flag_text(item.online).as_str())
}

fn supply_line_list(items: &Vec<MainsSupply>) -> (r: String)
    ensures
        r@ == joined(views(items@).map_values(|item: MainsSupplyView| supply_line_of(item))),
{
    let ghost all = views(items@).map_values(|item: MainsSupplyView| supply_line_of(item));
    let mut r: String = String::new();
    let mut i: usize = 0;
    while i < items.len()
        invariant
            i <= items@.len(),
            all == views(items@).map_values(|item: MainsSupplyView| supply_line_of(item)),
            r@ == joined(all.take(i as int)),
        decreases items@.len() - i,
    {
        r.append(supply_line(&items[i]).as_str());
        proof {
            lemma_joined_next(all, i as int);
        }
        i += 1;
    }
    assert(all.take(i as int) =~= all);
    r
}

/// The external power supplies.
#[verifier::opaque]
pub open spec fn supplies_of(items: Seq<MainsSupplyView>) -> Seq<char> {
    gauge_of("bbtop_mains_online"@, "Whether an external power supply is online"@)
        + joined(items.map_values(|item: MainsSupplyView| supply_line_of(item)))
}

fn supplies(items: &Vec<MainsSupply>) -> (r: String)
    ensures
        r@ == supplies_of(views(items@)),
{
    proof {
        reveal(supplies_of);
    }
    let mut r: String = gauge("bbtop_mains_online", "Whether an external power supply is online");
    r.append(supply_line_list(items).as_str());
    r
}

/// The bytes that a number of NVMe data units stands for: a thousand blocks of
/// 512 bytes each.
pub open spec fn data_bytes(units: u64) -> nat {
    if units * 512_000 > u64::MAX {
        u64::MAX as nat
    } else {
        (units * 512_000) as nat
    }
}

fn data_text(units: u64) -> (r: String)
    ensures
        r@ == decimal(data_bytes(units)),
{
    match units.checked_mul(512_000) {
        Some(bytes) => decimal_text(bytes),
        None => decimal_text(u64::MAX),
    }
}

/// The samples of an NVMe device.
pub open spec fn nvme_lines_of(item: NvmeSmartView) -> Seq<char> {
    let labels = label_of("device"@, item.device);
    sample_of("bbtop_nvme_percentage_used"@, labels, decimal(item.percentage_used as nat))
        + sample_of(
            "bbtop_nvme_available_spare_percent"@,
            labels,
            decimal(item.available_spare as nat),
        )
        + sample_of(
            "bbtop_nvme_available_spare_threshold_percent"@,
            labels,
            decimal(item.available_spare_threshold as nat),
        )
        + sample_of("bbtop_nvme_critical_warning"@, labels, decimal(item.critical_warning as nat))
        + sample_of(
            "bbtop_nvme_data_read_bytes_total"@,
            labels,
            decimal(data_bytes(item.data_units_read)),
        )
        + sample_of(
            "bbtop_nvme_data_written_bytes_total"@,
            labels,
            decimal(data_bytes(item.data_units_written)),
        )
        + sample_of("bbtop_nvme_power_cycles_total"@, labels, decimal(item.power_cycles as nat))
        + sample_of("bbtop_nvme_power_on_hours_total"@, labels, decimal(item.power_on_hours as nat))
        + sample_of(
            "bbtop_nvme_unsafe_shutdowns_total"@,
            labels,
            decimal(item.unsafe_shutdowns as nat),
        )
        + sample_of("bbtop_nvme_media_errors_total"@, labels, decimal(item.media_errors as nat))
        + sample_of(
            "bbtop_nvme_error_log_entries_total"@,
            labels,
            decimal(item.error_log_entries as nat),
        )
}

fn nvme_lines(item: &NvmeSmart) -> (r: String)
    ensures
        r@ == nvme_lines_of(item@),
{
    let labels: String = label("device", item.device.as_str());
    let mut r: String = sample(
        "bbtop_nvme_percentage_used",
        labels.as_str(),
        decimal_text(item.percentage_used).as_str(),
    );
    r.append(
        sample(
            "bbtop_nvme_available_spare_percent",
            labels.as_str(),
            decimal_text(item.available_spare).as_str(),
        ).as_str(),
    );
    r.append(
        sample(
            "bbtop_nvme_available_spare_threshold_percent",
            labels.as_str(),
            decimal_text(item.available_spare_threshold).as_str(),
        ).as_str(),
    );
    r.append(
        sample(
            "bbtop_nvme_critical_warning",
            labels.as_str(),
            decimal_text(item.critical_warning).as_str(),
        ).as_str(),
    );
    r.append(
        sample(
            "bbtop_nvme_data_read_bytes_total",
            labels.as_str(),
            data_text(item.data_units_read).as_str(),
        ).as_str(),
    );
    r.append(
        sample(
            "bbtop_nvme_data_written_bytes_total",
            labels.as_str(),
            data_text(item.data_units_written).as_str(),
        ).as_str(),
    );
    r.append(
        sample(
            "bbtop_nvme_power_cycles_total",
            labels.as_str(),
            decimal_text(item.power_cycles).as_str(),
        ).as_str(),
    );
    r.append(
        sample(
            "bbtop_nvme_power_on_hours_total",
            labels.as_str(),
            decimal_text(item.power_on_hours).as_str(),
        ).as_str(),
    );
    r.append(
        sample(
            "bbtop_nvme_unsafe_shutdowns_total",
            labels.as_str(),
            decimal_text(item.unsafe_shutdowns).as_str(),
        ).as_str(),
    );
    r.append(
        sample(
            "bbtop_nvme_media_errors_total",
            labels.as_str(),
            decimal_text(item.media_errors).as_str(),
        ).as_str(),
    );
    r.append(
        sample(
            "bbtop_nvme_error_log_entries_total",
            labels.as_str(),
            decimal_text(item.error_log_entries).as_str(),
        ).as_str(),
    );
    r
}

fn nvme_lines_list(items: &Vec<NvmeSmart>) -> (r: String)
    ensures
        r@ == joined(views(items@).map_values(|item: NvmeSmartView| nvme_lines_of(item))),
{
    let ghost all = views(items@).map_values(|item: NvmeSmartView| nvme_lines_of(item));
    let mut r: String = String::new();
    let mut i: usize = 0;
    while i < items.len()
        invariant
            i <= items@.len(),
            all == views(items@).map_values(|item: NvmeSmartView| nvme_lines_of(item)),
            r@ == joined(all.take(i as int)),
        decreases items@.len() - i,
    {
        r.append(nvme_lines(&items[i]).as_str());
        proof {
            lemma_joined_next(all, i as int);
        }
        i += 1;
    }
    assert(all.take(i as int) =~= all);
    r
}

/// The health logs of the NVMe devices.
#[verifier::opaque]
pub open spec fn nvme_of(items: Seq<NvmeSmartView>) -> Seq<char> {
    series_of("bbtop_nvme_percentage_used"@)
        + series_of("bbtop_nvme_available_spare_percent"@)
        + series_of("bbtop_nvme_available_spare_threshold_percent"@)
        + series_of("bbtop_nvme_critical_warning"@)
        + series_of("bbtop_nvme_data_read_bytes_total"@)
        + series_of("bbtop_nvme_data_written_bytes_total"@)
        + series_of("bbtop_nvme_power_cycles_total"@)
        + series_of("bbtop_nvme_power_on_hours_total"@)
        + series_of("bbtop_nvme_unsafe_shutdowns_total"@)
        + series_of("bbtop_nvme_media_errors_total"@)
        + series_of("bbtop_nvme_error_log_entries_total"@)
        + joined(items.map_values(|item: NvmeSmartView| nvme_lines_of(item)))
}

/// Writes the health logs of the NVMe devices.
pub fn render_nvme_smart(output: &mut String, devices: &Vec<NvmeSmart>)
    ensures
        final(output)@ == old(output)@ + nvme_of(views(devices@)),
{
    proof {
        reveal(nvme_of);
    }
    let mut r: String = series("bbtop_nvme_percentage_used");
    r.append(series("bbtop_nvme_available_spare_percent").as_str());
    r.append(series("bbtop_nvme_available_spare_threshold_percent").as_str());
    r.append(series("bbtop_nvme_critical_warning").as_str());
    r.append(series("bbtop_nvme_data_read_bytes_total").as_str());
    r.append(series("bbtop_nvme_data_written_bytes_total").as_str());
    r.append(series("bbtop_nvme_power_cycles_total").as_str());
    r.append(series("bbtop_nvme_power_on_hours_total").as_str());
    r.append(series("bbtop_nvme_unsafe_shutdowns_total").as_str());
    r.append(series("bbtop_nvme_media_errors_total").as_str());
    r.append(series("bbtop_nvme_error_log_entries_total").as_str());
    r.append(nvme_lines_list(devices).as_str());
    output.append(r.as_str());
}

/// The samples of a graphics card.
pub open spec fn gpu_lines_of(item: GpuView) -> Seq<char> {
    let labels = both(label_of("card"@, item.card), label_of("driver"@, item.driver));
    sample_of("bbtop_gpu_busy_percent"@, labels, item.busy_percent.thousandths)
        + sample_of("bbtop_gpu_vram_used_bytes"@, labels, decimal(item.vram_used_bytes as nat))
        + sample_of("bbtop_gpu_vram_total_bytes"@, labels, decimal(item.vram_total_bytes as nat))
}

fn gpu_lines(item: &Gpu) -> (r: String)
    ensures
        r@ == gpu_lines_of(item@),
{
    let labels: String = and(
        label("card", item.card.as_str()),
        label("driver", item.driver.as_str()),
    );
    let mut r: String = sample(
        "bbtop_gpu_busy_percent",
        labels.as_str(),
        item.busy_percent.thousandths.as_str(),
    );
    r.append(
        sample(
            "bbtop_gpu_vram_used_bytes",
            labels.as_str(),
            decimal_text(item.vram_used_bytes).as_str(),
        ).as_str(),
    );
    r.append(
        sample(
            "bbtop_gpu_vram_total_bytes",
            labels.as_str(),
            decimal_text(item.vram_total_bytes).as_str(),
        ).as_str(),
    );
    r
}

fn gpu_lines_list(items: &Vec<Gpu>) -> (r: String)
    ensures
        r@ == joined(views(items@).map_values(|item: GpuView| gpu_lines_of(item))),
{
    let ghost all = views(items@).map_values(|item: GpuView| gpu_lines_of(item));
    let mut r: String = String::new();
    let mut i: usize = 0;
    while i < items.len()
        invariant
            i <= items@.len(),
            all == views(items@).map_values(|item: GpuView| gpu_lines_of(item)),
            r@ == joined(all.take(i as int)),
        decreases items@.len() - i,
    {
        r.append(gpu_lines(&items[i]).as_str());
        proof {
            lemma_joined_next(all, i as int);
        }
        i += 1;
    }
    assert(all.take(i as int) =~= all);
    r
}

/// The load and the memory of the graphics cards.
#[verifier::opaque]
pub open spec fn gpus_of(items: Seq<GpuView>) -> Seq<char> {
    series_of("bbtop_gpu_busy_percent"@)
        + series_of("bbtop_gpu_vram_used_bytes"@)
        + series_of("bbtop_gpu_vram_total_bytes"@)
        + joined(items.map_values(|item: GpuView| gpu_lines_of(item)))
}

fn gpus(items: &Vec<Gpu>) -> (r: String)
    ensures
        r@ == gpus_of(views(items@)),
{
    proof {
        reveal(gpus_of);
    }
    let mut r: String = series("bbtop_gpu_busy_percent");
    r.append(series("bbtop_gpu_vram_used_bytes").as_str());
    r.append(series("bbtop_gpu_vram_total_bytes").as_str());
    r.append(gpu_lines_list(items).as_str());
    r
}

/// The space of a filesystem that is not available.
pub open spec fn used_bytes(item: FilesystemView) -> nat {
    if item.size_bytes < item.available_bytes {
        0
    } else {
        (item.size_bytes - item.available_bytes) as nat
    }
}

/// The samples of a filesystem.
pub open spec fn filesystem_lines_of(item: FilesystemView) -> Seq<char> {
    let labels = both(
        both(label_of("device"@, item.device), label_of("mountpoint"@, item.mountpoint)),
        label_of("fstype"@, item.filesystem_type),
    );
    sample_of("bbtop_filesystem_size_bytes"@, labels, decimal(item.size_bytes as nat))
        + sample_of(
            "bbtop_filesystem_available_bytes"@,
            labels,
            decimal(item.available_bytes as nat),
        )
        + sample_of("bbtop_filesystem_used_bytes"@, labels, decimal(used_bytes(item)))
}

fn filesystem_lines(item: &Filesystem) -> (r: String)
    ensures
        r@ == filesystem_lines_of(item@),
{
    let labels: String = and(
        and(label("device", item.device.as_str()), label("mountpoint", item.mountpoint.as_str())),
        label("fstype", item.filesystem_type.as_str()),
    );
    let mut r: String = sample(
        "bbtop_filesystem_size_bytes",
        labels.as_str(),
        decimal_text(item.size_bytes).as_str(),
    );
    r.append(
        sample(
            "bbtop_filesystem_available_bytes",
            labels.as_str(),
            decimal_text(item.available_bytes).as_str(),
        ).as_str(),
    );
    r.append(
        sample(
            "bbtop_filesystem_used_bytes",
            labels.as_str(),
            decimal_text(item.size_bytes.saturating_sub(item.available_bytes)).as_str(),
        ).as_str(),
    );
    r
}

fn filesystem_lines_list(items: &Vec<Filesystem>) -> (r: String)
    ensures
        r@ == joined(views(items@).map_values(|item: FilesystemView| filesystem_lines_of(item))),
{
    let ghost all = views(items@).map_values(|item: FilesystemView| filesystem_lines_of(item));
    let mut r: String = String::new();
    let mut i: usize = 0;
    while i < items.len()
        invariant
            i <= items@.len(),
            all == views(items@).map_values(|item: FilesystemView| filesystem_lines_of(item)),
            r@ == joined(all.take(i as int)),
        decreases items@.len() - i,
    {
        r.append(filesystem_lines(&items[i]).as_str());
        proof {
            lemma_joined_next(all, i as int);
        }
        i += 1;
    }
    assert(all.take(i as int) =~= all);
    r
}

/// The space of the filesystems.
#[verifier::opaque]
pub open spec fn filesystems_of(items: Seq<FilesystemView>) -> Seq<char> {
    type_of("bbtop_filesystem_size_bytes"@, "gauge"@)
        + type_of("bbtop_filesystem_available_bytes"@, "gauge"@)
        + type_of("bbtop_filesystem_used_bytes"@, "gauge"@)
        + joined(items.map_values(|item: FilesystemView| filesystem_lines_of(item)))
}

fn filesystems(items: &Vec<Filesystem>) -> (r: String)
    ensures
        r@ == filesystems_of(views(items@)),
{
    proof {
        reveal(filesystems_of);
    }
    let mut r: String = type_line("bbtop_filesystem_size_bytes", "gauge");
    r.append(type_line("bbtop_filesystem_available_bytes", "gauge").as_str());
    r.append(type_line("bbtop_filesystem_used_bytes", "gauge").as_str());
    r.append(filesystem_lines_list(items).as_str());
    r
}

/// The labels of a process.
pub open spec fn process_labels_of(item: ProcessView) -> Seq<char> {
    both(bare_label_of("pid"@, decimal(item.pid as nat)), label_of("name"@, item.name))
}

/// The samples of a process.
pub open spec fn process_lines_of(item: ProcessView) -> Seq<char> {
    let labels = process_labels_of(item);
    sample_of("bbtop_process_cpu_usage_percent"@, labels, item.cpu_percent.thousandths)
        + sample_of("bbtop_process_resident_memory_bytes"@, labels, decimal(item.rss_bytes as nat))
        + sample_of(
            "bbtop_process_virtual_memory_bytes"@,
            labels,
            decimal(item.virtual_bytes as nat),
        )
        + sample_of("bbtop_process_threads"@, labels, decimal(item.threads as nat))
        + sample_of(
            "bbtop_process_state"@,
            both(labels, bare_label_of("state"@, seq![item.state])),
            "1"@,
        )
        + sample_of("bbtop_process_read_bytes_total"@, labels, decimal(item.read_bytes as nat))
        + sample_of("bbtop_process_write_bytes_total"@, labels, decimal(item.write_bytes as nat))
        + sample_of(
            "bbtop_process_network_receive_bytes_total"@,
            labels,
            decimal(item.network_receive_bytes as nat),
        )
        + sample_of(
            "bbtop_process_network_transmit_bytes_total"@,
            labels,
            decimal(item.network_transmit_bytes as nat),
        )
        + sample_of("bbtop_process_gpu_usage_percent"@, labels, item.gpu_percent.thousandths)
        + sample_of("bbtop_process_gpu_vram_bytes"@, labels, decimal(item.gpu_vram_bytes as nat))
}

fn process_lines(item: &Process) -> (r: String)
    ensures
        r@ == process_lines_of(item@),
{
    let labels: String = and(
        bare_label("pid", decimal_text(item.pid as u64).as_str()),
        label("name", item.name.as_str()),
    );
    let mut state: String = String::new();
    state.push(item.state);
    assert(state@ =~= seq![item.state]);
    let with_state: String = and(labels.clone(), bare_label("state", state.as_str()));
    let mut r: String = sample(
        "bbtop_process_cpu_usage_percent",
        labels.as_str(),
        item.cpu_percent.thousandths.as_str(),
    );
    r.append(
        sample(
            "bbtop_process_resident_memory_bytes",
            labels.as_str(),
            decimal_text(item.rss_bytes).as_str(),
        ).as_str(),
    );
    r.append(
        sample(
            "bbtop_process_virtual_memory_bytes",
            labels.as_str(),
            decimal_text(item.virtual_bytes).as_str(),
        ).as_str(),
    );
    r.append(
        sample(
            "bbtop_process_threads",
            labels.as_str(),
            decimal_text(item.threads).as_str(),
        ).as_str(),
    );
    r.append(sample("bbtop_process_state", with_state.as_str(), "1").as_str());
    r.append(
        sample(
            "bbtop_process_read_bytes_total",
            labels.as_str(),
            decimal_text(item.read_bytes).as_str(),
        ).as_str(),
    );
    r.append(
        sample(
            "bbtop_process_write_bytes_total",
            labels.as_str(),
            decimal_text(item.write_bytes).as_str(),
        ).as_str(),
    );
    r.append(
        sample(
            "bbtop_process_network_receive_bytes_total",
            labels.as_str(),
            decimal_text(item.network_receive_bytes).as_str(),
        ).as_str(),
    );
    r.append(
        sample(
            "bbtop_process_network_transmit_bytes_total",
            labels.as_str(),
            decimal_text(item.network_transmit_bytes).as_str(),
        ).as_str(),
    );
    r.append(
        sample(
            "bbtop_process_gpu_usage_percent",
            labels.as_str(),
            item.gpu_percent.thousandths.as_str(),
        ).as_str(),
    );
    r.append(
        sample(
            "bbtop_process_gpu_vram_bytes",
            labels.as_str(),
            decimal_text(item.gpu_vram_bytes).as_str(),
        ).as_str(),
    );
    r
}

/// The types of the process series.
#[verifier::opaque]
pub open spec fn process_types_of() -> Seq<char> {
    series_of("bbtop_process_cpu_usage_percent"@)
        + series_of("bbtop_process_resident_memory_bytes"@)
        + series_of("bbtop_process_virtual_memory_bytes"@)
        + series_of("bbtop_process_threads"@)
        + series_of("bbtop_process_state"@)
        + series_of("bbtop_process_read_bytes_total"@)
        + series_of("bbtop_process_write_bytes_total"@)
        + series_of("bbtop_process_network_receive_bytes_total"@)
        + series_of("bbtop_process_network_transmit_bytes_total"@)
        + series_of("bbtop_process_gpu_usage_percent"@)
        + series_of("bbtop_process_gpu_vram_bytes"@)
}

fn process_types() -> (r: String)
    ensures
        r@ == process_types_of(),
{
    proof {
        reveal(process_types_of);
    }
    let mut r: String = series("bbtop_process_cpu_usage_percent");
    r.append(series("bbtop_process_resident_memory_bytes").as_str());
    r.append(series("bbtop_process_virtual_memory_bytes").as_str());
    r.append(series("bbtop_process_threads").as_str());
    r.append(series("bbtop_process_state").as_str());
    r.append(series("bbtop_process_read_bytes_total").as_str());
    r.append(series("bbtop_process_write_bytes_total").as_str());
    r.append(series("bbtop_process_network_receive_bytes_total").as_str());
    r.append(series("bbtop_process_network_transmit_bytes_total").as_str());
    r.append(series("bbtop_process_gpu_usage_percent").as_str());
    r.append(series("bbtop_process_gpu_vram_bytes").as_str());
    r
}

/// The samples of the processes that are exported.
#[verifier::opaque]
pub open spec fn processes_of(items: Seq<ProcessView>, limit: nat) -> Seq<char> {
    joined(selection(items, limit).map_values(|i: int| process_lines_of(items[i])))
}

fn processes(items: &Vec<Process>, limit: usize) -> (r: String)
    ensures
        r@ == processes_of(views(items@), limit as nat),
{
    proof {
        reveal(processes_of);
    }
    let ghost seen = views(items@);
    let chosen: Vec<usize> = select_processes(items, limit);
    let ghost order = selection(seen, limit as nat);
    let ghost all = order.map_values(|i: int| process_lines_of(seen[i]));
    let mut r: String = String::new();
    let mut k: usize = 0;
    while k < chosen.len()
        invariant
            k <= chosen@.len(),
            seen == views(items@),
            order == positions(chosen@),
            in_range(seen, order),
            all == order.map_values(|i: int| process_lines_of(seen[i])),
            r@ == joined(all.take(k as int)),
        decreases chosen@.len() - k,
    {
        assert(order[k as int] == chosen@[k as int]);
        r.append(process_lines(&items[chosen[k]]).as_str());
        proof {
            lemma_joined_next(all, k as int);
        }
        k += 1;
    }
    assert(all.take(k as int) =~= all);
    r
}

/// CPU, memory, load and uptime.
#[verifier::opaque]
pub open spec fn host_of(snapshot: Snapshot) -> Seq<char> {
    metric_of("bbtop_cpu_usage_percent"@, "gauge"@, snapshot.cpu_percent.shortest@)
        + metric_of("bbtop_cpu_logical_count"@, "gauge"@, decimal(snapshot.cpu_count as nat))
        + metric_of("bbtop_memory_total_bytes"@, "gauge"@, decimal(snapshot.memory_total as nat))
        + metric_of(
            "bbtop_memory_available_bytes"@,
            "gauge"@,
            decimal(snapshot.memory_available as nat),
        )
        + metric_of("bbtop_swap_total_bytes"@, "gauge"@, decimal(snapshot.swap_total as nat))
        + metric_of("bbtop_swap_free_bytes"@, "gauge"@, decimal(snapshot.swap_free as nat))
        + metric_of("bbtop_load1"@, "gauge"@, snapshot.load@[0].shortest@)
        + metric_of("bbtop_load5"@, "gauge"@, snapshot.load@[1].shortest@)
        + metric_of("bbtop_load15"@, "gauge"@, snapshot.load@[2].shortest@)
        + metric_of("bbtop_uptime_seconds"@, "gauge"@, snapshot.uptime.shortest@)
}

fn host(snapshot: &Snapshot) -> (r: String)
    ensures
        r@ == host_of(*snapshot),
{
    proof {
        reveal(host_of);
    }
    let mut r: String = String::new();
    metric(&mut r, "bbtop_cpu_usage_percent", "gauge", snapshot.cpu_percent.shortest.as_str());
    assert(r@ =~= metric_of("bbtop_cpu_usage_percent"@, "gauge"@, snapshot.cpu_percent.shortest@));
    metric(&mut r, "bbtop_cpu_logical_count", "gauge", size_text(snapshot.cpu_count).as_str());
    metric(
        &mut r,
        "bbtop_memory_total_bytes",
        "gauge",
        decimal_text(snapshot.memory_total).as_str(),
    );
    metric(
        &mut r,
        "bbtop_memory_available_bytes",
        "gauge",
        decimal_text(snapshot.memory_available).as_str(),
    );
    metric(&mut r, "bbtop_swap_total_bytes", "gauge", decimal_text(snapshot.swap_total).as_str());
    metric(&mut r, "bbtop_swap_free_bytes", "gauge", decimal_text(snapshot.swap_free).as_str());
    metric(&mut r, "bbtop_load1", "gauge", snapshot.load[0].shortest.as_str());
    metric(&mut r, "bbtop_load5", "gauge", snapshot.load[1].shortest.as_str());
    metric(&mut r, "bbtop_load15", "gauge", snapshot.load[2].shortest.as_str());
    metric(&mut r, "bbtop_uptime_seconds", "gauge", snapshot.uptime.shortest.as_str());
    r
}

/// Disk counters and tasks.
#[verifier::opaque]
pub open spec fn activity_of(snapshot: Snapshot) -> Seq<char> {
    metric_of("bbtop_disk_read_bytes_total"@, "counter"@, decimal(snapshot.disk_read_bytes as nat))
        + metric_of(
            "bbtop_disk_write_bytes_total"@,
            "counter"@,
            decimal(snapshot.disk_write_bytes as nat),
        )
        + metric_of("bbtop_processes"@, "gauge"@, decimal(snapshot.processes_total as nat))
        + metric_of(
            "bbtop_processes_running"@,
            "gauge"@,
            decimal(snapshot.processes_running as nat),
        )
        + metric_of(
            "bbtop_last_collection_timestamp_seconds"@,
            "gauge"@,
            decimal(snapshot.timestamp as nat),
        )
}

fn activity(snapshot: &Snapshot) -> (r: String)
    ensures
        r@ == activity_of(*snapshot),
{
    proof {
        reveal(activity_of);
    }
    let mut r: String = String::new();
    metric(
        &mut r,
        "bbtop_disk_read_bytes_total",
        "counter",
        decimal_text(snapshot.disk_read_bytes).as_str(),
    );
    assert(
        r@ =~= metric_of(
            "bbtop_disk_read_bytes_total"@,
            "counter"@,
            decimal(snapshot.disk_read_bytes as nat),
        )
    );
    metric(
        &mut r,
        "bbtop_disk_write_bytes_total",
        "counter",
        decimal_text(snapshot.disk_write_bytes).as_str(),
    );
    metric(&mut r, "bbtop_processes", "gauge", size_text(snapshot.processes_total).as_str());
    metric(
        &mut r,
        "bbtop_processes_running",
        "gauge",
        size_text(snapshot.processes_running).as_str(),
    );
    metric(
        &mut r,
        "bbtop_last_collection_timestamp_seconds",
        "gauge",
        decimal_text(snapshot.timestamp).as_str(),
    );
    r
}

/// The exposition of a snapshot, with the processes of rankings of `limit` each.
#[verifier::opaque]
pub open spec fn exposition(snapshot: Snapshot, limit: nat) -> Seq<char> {
    host_of(snapshot)
        + networks_of(views(snapshot.networks@))
        + activity_of(snapshot)
        + metric_of("bbtop_fans_detected"@, "gauge"@, decimal(snapshot.fans@.len()))
        + fans_of(views(snapshot.fans@))
        + metric_of("bbtop_temperatures_detected"@, "gauge"@, decimal(snapshot.temperatures@.len()))
        + temperatures_of(views(snapshot.temperatures@))
        + metric_of("bbtop_power_sensors_detected"@, "gauge"@, decimal(snapshot.power@.len()))
        + powers_of(views(snapshot.power@))
        + batteries_of(views(snapshot.battery_power@), snapshot.discharge_watts@)
        + readings_of(
            "bbtop_voltage_volts"@,
            "Voltage reported by Linux hwmon"@,
            views(snapshot.voltages@),
        )
        + readings_of(
            "bbtop_current_amperes"@,
            "Current reported by Linux hwmon"@,
            views(snapshot.currents@),
        )
        + limits_of(views(snapshot.temperature_limits@))
        + alarms_of(views(snapshot.temperature_alarms@))
        + frequencies_of(views(snapshot.cpu_frequencies@))
        + supplies_of(views(snapshot.mains_supplies@))
        + nvme_of(views(snapshot.nvme_smart@))
        + gpus_of(views(snapshot.gpus@))
        + filesystems_of(views(snapshot.filesystems@))
        + gauge_of("bbtop_info"@, "Host identity"@)
        + sample_of("bbtop_info"@, label_of("hostname"@, snapshot.hostname@), "1"@)
        + process_types_of()
        + processes_of(views(snapshot.processes@), limit)
}

/// The exposition of a snapshot. Of the processes those are exported that lead
/// in CPU, memory, network bytes or GPU share, `process_limit` of each.
pub fn render_prometheus(snapshot: &Snapshot, process_limit: usize) -> (r: String)
    ensures
        r@ == exposition(*snapshot, process_limit as nat),
{
    proof {
        reveal(exposition);
    }
    let mut r: String = host(snapshot);
    r.append(networks(&snapshot.networks).as_str());
    r.append(activity(snapshot).as_str());
    metric(&mut r, "bbtop_fans_detected", "gauge", size_text(snapshot.fans.len()).as_str());
    r.append(fans(&snapshot.fans).as_str());
    metric(
        &mut r,
        "bbtop_temperatures_detected",
        "gauge",
        size_text(snapshot.temperatures.len()).as_str(),
    );
    r.append(temperatures(&snapshot.temperatures).as_str());
    metric(
        &mut r,
        "bbtop_power_sensors_detected",
        "gauge",
        size_text(snapshot.power.len()).as_str(),
    );
    r.append(powers(&snapshot.power).as_str());
    r.append(batteries(&snapshot.battery_power, &snapshot.discharge_watts).as_str());
    render_electrical_readings(
        &mut r,
        "bbtop_voltage_volts",
        "Voltage reported by Linux hwmon",
        &snapshot.voltages,
    );
    render_electrical_readings(
        &mut r,
        "bbtop_current_amperes",
        "Current reported by Linux hwmon",
        &snapshot.currents,
    );
    r.append(limits(&snapshot.temperature_limits).as_str());
    r.append(alarms(&snapshot.temperature_alarms).as_str());
    r.append(frequencies(&snapshot.cpu_frequencies).as_str());
    r.append(supplies(&snapshot.mains_supplies).as_str());
    render_nvme_smart(&mut r, &snapshot.nvme_smart);
    r.append(gpus(&snapshot.gpus).as_str());
    r.append(filesystems(&snapshot.filesystems).as_str());
    r.append(gauge("bbtop_info", "Host identity").as_str());
    r.append(
        sample("bbtop_info", label("hostname", snapshot.hostname.as_str()).as_str(), "1").as_str(),
    );
    r.append(process_types().as_str());
    r.append(processes(&snapshot.processes, process_limit).as_str());
    r
}

/// A data unit of a health log stands for a thousand blocks of 512 bytes, up to what 64
/// bits hold.
pub proof fn law_a_data_unit_is_a_thousand_blocks(units: u64)
    ensures
        units * 1000 * 512 <= 0xffff_ffff_ffff_ffff ==> data_bytes(units) == units * 1000 * 512,
        units * 1000 * 512 > 0xffff_ffff_ffff_ffff ==> data_bytes(units) == 0xffff_ffff_ffff_ffff,
{
}

/// What is used of a filesystem and what is available make up its size.
pub proof fn law_used_and_available_make_up_the_size(item: FilesystemView)
    ensures
        item.available_bytes <= item.size_bytes ==> used_bytes(item) + item.available_bytes
            == item.size_bytes,
        item.size_bytes < item.available_bytes ==> used_bytes(item) == 0,
{
}

/// What holds is exported as a one, and what does not as a zero.
pub proof fn law_flags_are_one_and_zero(holds: bool)
    ensures
        parsed_u64(flag(holds)) == Some(if holds {
            1u64
        } else {
            0u64
        }),
{
    reveal_strlit("1");
    reveal_strlit("0");
    law_decimal_reads_back(0);
    law_decimal_reads_back(1);
    assert("0"@ =~= decimal(0));
    assert("1"@ =~= decimal(1));
}

} // verus!
