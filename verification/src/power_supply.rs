//! Batteries and external power.

use crate::list::{kept, lemma_kept_both, lemma_kept_next, lemma_kept_none};
use crate::number::{decimal, law_signed_numbers_read_back, read_i64, signed_content};
use crate::order::{
    arranged, law_arranged_is_sorted, lemma_text_total, lemma_text_transitive, sort, text_at_most,
    text_le, Ranked,
};
use crate::snapshot::{MainsSupply, MainsSupplyView};
use crate::text::{
    blank, characters, equals, law_trimming_takes_the_blanks, optional_text, trim, trim_text,
    trimmed, views, whitespace,
};
use vstd::prelude::*;

verus! {

/// A power supply: the name of its directory, and what its files hold where they
/// could be read.
pub struct PowerSupply {
    pub name: String,
    pub kind: Option<String>,
    pub voltage_now: Option<String>,
    pub current_now: Option<String>,
    pub status: Option<String>,
    pub capacity: Option<String>,
    pub online: Option<String>,
}

/// The view of `PowerSupply`.
#[verifier::ext_equal]
pub struct PowerSupplyView {
    pub name: Seq<char>,
    pub kind: Option<Seq<char>>,
    pub voltage_now: Option<Seq<char>>,
    pub current_now: Option<Seq<char>>,
    pub status: Option<Seq<char>>,
    pub capacity: Option<Seq<char>>,
    pub online: Option<Seq<char>>,
}

impl View for PowerSupply {
    type V = PowerSupplyView;

    open spec fn view(&self) -> PowerSupplyView {
        PowerSupplyView {
            name: self.name@,
            kind: optional_text(self.kind),
            voltage_now: optional_text(self.voltage_now),
            current_now: optional_text(self.current_now),
            status: optional_text(self.status),
            capacity: optional_text(self.capacity),
            online: optional_text(self.online),
        }
    }
}

/// A battery as its driver reports it.
#[derive(Clone, Debug)]
pub struct Battery {
    pub name: String,
    pub status: String,
    /// The size of the voltage, in millionths of a volt.
    pub microvolts: u64,
    /// The size of the current, in millionths of an ampere.
    pub microamperes: u64,
    pub charge_percent: Option<i64>,
}

/// The view of `Battery`.
#[verifier::ext_equal]
pub struct BatteryView {
    pub name: Seq<char>,
    pub status: Seq<char>,
    pub microvolts: u64,
    pub microamperes: u64,
    pub charge_percent: Option<i64>,
}

impl View for Battery {
    type V = BatteryView;

    open spec fn view(&self) -> BatteryView {
        BatteryView {
            name: self.name@,
            status: self.status@,
            microvolts: self.microvolts,
            microamperes: self.microamperes,
            charge_percent: self.charge_percent,
        }
    }
}

/// Batteries are ordered by name.
impl Ranked for Battery {
    open spec fn le(a: BatteryView, b: BatteryView) -> bool {
        text_le(a.name, b.name)
    }

    fn at_most(&self, other: &Self) -> (r: bool) {
        text_at_most(self.name.as_str(), other.name.as_str())
    }

    proof fn total(a: BatteryView, b: BatteryView) {
        lemma_text_total(a.name, b.name, 0);
    }

    proof fn transitive(a: BatteryView, b: BatteryView, c: BatteryView) {
        lemma_text_transitive(a.name, b.name, c.name, 0);
    }
}

/// Whether a supply is of the given kind.
pub open spec fn is_kind(supply: PowerSupplyView, kind: Seq<char>) -> bool {
    match supply.kind {
        Some(text) => trimmed(text) == kind,
        None => false,
    }
}

fn of_kind(supply: &PowerSupply, kind: &str) -> (r: bool)
    ensures
        r == is_kind(supply@, kind@),
{
    match &supply.kind {
        Some(text) => {
            let chars: Vec<char> = characters(text.as_str());
            equals(trim(chars.as_slice()), kind)
        },
        None => false,
    }
}

/// The size of a number.
pub open spec fn size(n: i64) -> u64 {
    if n < 0 {
        (-n) as u64
    } else {
        n as u64
    }
}

fn size_of(n: i64) -> (r: u64)
    ensures
        r == size(n),
{
    if n < 0 {
        (-(n as i128)) as u64
    } else {
        n as u64
    }
}

/// What a supply says, if it is a battery whose voltage and current are known.
pub open spec fn battery_of(supply: PowerSupplyView) -> Option<BatteryView> {
    match (signed_content(supply.voltage_now), signed_content(supply.current_now)) {
        (Some(voltage), Some(current)) => if is_kind(supply, "Battery"@) {
            Some(
                BatteryView {
                    name: supply.name,
                    status: match supply.status {
                        Some(status) => trimmed(status),
                        None => "Unknown"@,
                    },
                    microvolts: size(voltage),
                    microamperes: size(current),
                    charge_percent: signed_content(supply.capacity),
                },
            )
        } else {
            None
        },
        _ => None,
    }
}

spec fn optional_battery(battery: Option<Battery>) -> Option<BatteryView> {
    match battery {
        Some(battery) => Some(battery@),
        None => None,
    }
}

fn battery_in(supply: &PowerSupply) -> (r: Option<Battery>)
    ensures
        optional_battery(r) == battery_of(supply@),
{
    if !of_kind(supply, "Battery") {
        return None;
    }
    match (read_i64(&supply.voltage_now), read_i64(&supply.current_now)) {
        (Some(voltage), Some(current)) => Some(
            Battery {
                name: supply.name.clone(),
                status: match &supply.status {
                    Some(status) => trim_text(status.as_str()),
                    None => "Unknown".to_owned(),
                },
                microvolts: size_of(voltage),
                microamperes: size_of(current),
                charge_percent: read_i64(&supply.capacity),
            },
        ),
        _ => None,
    }
}

/// The batteries among some supplies, in their order.
pub open spec fn batteries_of(supplies: Seq<PowerSupplyView>) -> Seq<BatteryView> {
    kept(supplies, |supply: PowerSupplyView| battery_of(supply))
}

/// The batteries among the supplies, sorted by name.
pub fn read_battery_power(supplies: &Vec<PowerSupply>) -> (r: Vec<Battery>)
    ensures
        views(r@) == arranged::<Battery>(batteries_of(views(supplies@))),
{
    let ghost seen = views(supplies@);
    let ghost f = |supply: PowerSupplyView| battery_of(supply);
    let mut r: Vec<Battery> = Vec::new();
    let mut i: usize = 0;
    proof {
        lemma_kept_none(seen, f);
        assert(views(r@) =~= Seq::<BatteryView>::empty());
    }
    while i < supplies.len()
        invariant
            i <= supplies@.len(),
            seen == views(supplies@),
            f == |supply: PowerSupplyView| battery_of(supply),
            views(r@) == kept(seen.take(i as int), f),
        decreases supplies@.len() - i,
    {
        let ghost before = views(r@);
        proof {
            lemma_kept_next(seen, f, i as int);
            assert(seen[i as int] == supplies@[i as int]@);
        }
        if let Some(battery) = battery_in(&supplies[i]) {
            let ghost found = battery@;
            r.push(battery);
            assert(views(r@) =~= before.push(found));
        }
        i += 1;
    }
    sort(r)
}

/// External supplies are ordered by name.
impl Ranked for MainsSupply {
    open spec fn le(a: MainsSupplyView, b: MainsSupplyView) -> bool {
        text_le(a.supply, b.supply)
    }

    fn at_most(&self, other: &Self) -> (r: bool) {
        text_at_most(self.supply.as_str(), other.supply.as_str())
    }

    proof fn total(a: MainsSupplyView, b: MainsSupplyView) {
        lemma_text_total(a.supply, b.supply, 0);
    }

    proof fn transitive(a: MainsSupplyView, b: MainsSupplyView, c: MainsSupplyView) {
        lemma_text_transitive(a.supply, b.supply, c.supply, 0);
    }
}

/// What a supply says, if it is an external one. Whether it is connected is a
/// number other than zero; where there is none it is not.
pub open spec fn mains_of(supply: PowerSupplyView) -> Option<MainsSupplyView> {
    if is_kind(supply, "Mains"@) {
        Some(
            MainsSupplyView {
                supply: supply.name,
                online: match signed_content(supply.online) {
                    Some(online) => online != 0,
                    None => false,
                },
            },
        )
    } else {
        None
    }
}

/// The external supplies among some supplies, in their order.
pub open spec fn mains_among(supplies: Seq<PowerSupplyView>) -> Seq<MainsSupplyView> {
    kept(supplies, |supply: PowerSupplyView| mains_of(supply))
}

/// The external supplies among the supplies, sorted by name.
pub fn read_mains_supplies(supplies: &Vec<PowerSupply>) -> (r: Vec<MainsSupply>)
    ensures
        views(r@) == arranged::<MainsSupply>(mains_among(views(supplies@))),
{
    let ghost seen = views(supplies@);
    let ghost f = |supply: PowerSupplyView| mains_of(supply);
    let mut r: Vec<MainsSupply> = Vec::new();
    let mut i: usize = 0;
    proof {
        lemma_kept_none(seen, f);
        assert(views(r@) =~= Seq::<MainsSupplyView>::empty());
    }
    while i < supplies.len()
        invariant
            i <= supplies@.len(),
            seen == views(supplies@),
            f == |supply: PowerSupplyView| mains_of(supply),
            views(r@) == kept(seen.take(i as int), f),
        decreases supplies@.len() - i,
    {
        let supply: &PowerSupply = &supplies[i];
        let ghost before = views(r@);
        proof {
            lemma_kept_next(seen, f, i as int);
            assert(seen[i as int] == supply@);
        }
        if of_kind(supply, "Mains") {
            let online: bool = match read_i64(&supply.online) {
                Some(online) => online != 0,
                None => false,
            };
            let found = MainsSupply { supply: supply.name.clone(), online };
            let ghost new = found@;
            r.push(found);
            assert(views(r@) =~= before.push(new));
        }
        i += 1;
    }
    sort(r)
}

/// No supply is both a battery and an external one.
pub proof fn law_a_battery_is_no_mains_supply(supply: PowerSupplyView)
    ensures
        battery_of(supply) is None || mains_of(supply) is None,
{
    reveal_strlit("Battery");
    reveal_strlit("Mains");
    assert("Battery"@[0] != "Mains"@[0]);
}

/// A battery reads back: its name and its status, the size of its voltage and of its
/// current, whichever way that flows, and its charge.
pub proof fn law_a_battery_reads_back(
    supply: PowerSupplyView,
    volts: nat,
    amperes: nat,
    charge: nat,
    status: Seq<char>,
    end: Seq<char>,
)
    requires
        blank(end),
        supply.kind == Some("Battery"@ + end),
        supply.voltage_now == Some(decimal(volts) + end),
        supply.current_now == Some(decimal(amperes) + end) || supply.current_now == Some(
            seq!['-'] + decimal(amperes) + end,
        ),
        supply.capacity == Some(decimal(charge) + end),
        supply.status == Some(status + end),
        status.len() > 0 ==> !whitespace(status.first()) && !whitespace(status.last()),
        volts <= i64::MAX,
        amperes <= i64::MAX,
        charge <= i64::MAX,
    ensures
        battery_of(supply) == Some(
            BatteryView {
                name: supply.name,
                status,
                microvolts: volts as u64,
                microamperes: amperes as u64,
                charge_percent: Some(charge as i64),
            },
        ),
{
    let none = Seq::<char>::empty();
    law_signed_numbers_read_back(none, volts, end);
    law_signed_numbers_read_back(none, amperes, end);
    law_signed_numbers_read_back(none, charge, end);
    assert(none + decimal(volts) + end =~= decimal(volts) + end);
    assert(none + decimal(amperes) + end =~= decimal(amperes) + end);
    assert(none + (seq!['-'] + decimal(amperes)) + end =~= seq!['-'] + decimal(amperes) + end);
    assert(none + decimal(charge) + end =~= decimal(charge) + end);
    reveal_strlit("Battery");
    law_trimming_takes_the_blanks(none, "Battery"@, end);
    assert(none + "Battery"@ + end =~= "Battery"@ + end);
    law_trimming_takes_the_blanks(none, status, end);
    assert(none + status + end =~= status + end);
}

/// An external supply is online just if its file says a number other than zero.
pub proof fn law_a_mains_supply_reads_back(supply: PowerSupplyView, online: nat, end: Seq<char>)
    requires
        blank(end),
        supply.kind == Some("Mains"@ + end),
        online <= i64::MAX,
    ensures
        supply.online == Some(decimal(online) + end) ==> mains_of(supply) == Some(
            MainsSupplyView { supply: supply.name, online: online != 0 },
        ),
        supply.online is None ==> mains_of(supply) == Some(
            MainsSupplyView { supply: supply.name, online: false },
        ),
{
    let none = Seq::<char>::empty();
    law_signed_numbers_read_back(none, online, end);
    assert(none + decimal(online) + end =~= decimal(online) + end);
    reveal_strlit("Mains");
    law_trimming_takes_the_blanks(none, "Mains"@, end);
    assert(none + "Mains"@ + end =~= "Mains"@ + end);
}

/// The batteries and the external supplies among supplies are those of each of them.
pub proof fn law_supplies_of_both(
    a: Seq<PowerSupplyView>,
    b: Seq<PowerSupplyView>,
    supply: PowerSupplyView,
)
    ensures
        batteries_of(a + b) == batteries_of(a) + batteries_of(b),
        mains_among(a + b) == mains_among(a) + mains_among(b),
        battery_of(supply) is Some ==> batteries_of(seq![supply]) == seq![battery_of(supply)->0],
        battery_of(supply) is None ==> batteries_of(seq![supply]).len() == 0,
        mains_of(supply) is Some ==> mains_among(seq![supply]) == seq![mains_of(supply)->0],
        mains_of(supply) is None ==> mains_among(seq![supply]).len() == 0,
{
    let f = |supply: PowerSupplyView| battery_of(supply);
    let g = |supply: PowerSupplyView| mains_of(supply);
    let one = seq![supply];
    lemma_kept_both(a, b, f);
    lemma_kept_both(a, b, g);
    lemma_kept_none(one, f);
    lemma_kept_none(one, g);
    lemma_kept_next(one, f, 0);
    lemma_kept_next(one, g, 0);
    assert(one.take(1) =~= one);
    assert(f(supply) == battery_of(supply));
    assert(g(supply) == mains_of(supply));
}

/// Batteries and external supplies stand by their names.
pub proof fn law_supplies_stand_by_name(supplies: Seq<PowerSupplyView>, i: int, j: int)
    requires
        0 <= i <= j,
    ensures
        ({
            let batteries = arranged::<Battery>(batteries_of(supplies));
            let mains = arranged::<MainsSupply>(mains_among(supplies));
            &&& batteries.to_multiset() == batteries_of(supplies).to_multiset()
            &&& mains.to_multiset() == mains_among(supplies).to_multiset()
            &&& j < batteries.len() ==> text_le(batteries[i].name, batteries[j].name)
            &&& j < mains.len() ==> text_le(mains[i].supply, mains[j].supply)
        }),
{
    law_arranged_is_sorted::<Battery>(batteries_of(supplies));
    law_arranged_is_sorted::<MainsSupply>(mains_among(supplies));
    let batteries = arranged::<Battery>(batteries_of(supplies));
    let mains = arranged::<MainsSupply>(mains_among(supplies));
    if j < batteries.len() {
        assert(Battery::le(batteries[i], batteries[j]));
    }
    if j < mains.len() {
        assert(MainsSupply::le(mains[i], mains[j]));
    }
}

/// A battery without a status is of unknown status, one without a charge has none, and one
/// whose voltage or current is not known is left out.
pub proof fn law_what_a_battery_does_not_tell(supply: PowerSupplyView)
    ensures
        supply.status is None ==> (battery_of(supply) matches Some(battery) ==> battery.status
            == "Unknown"@),
        supply.capacity is None ==> (battery_of(supply) matches Some(battery)
            ==> battery.charge_percent is None),
        supply.voltage_now is None ==> battery_of(supply) is None,
        supply.current_now is None ==> battery_of(supply) is None,
        supply.kind is None ==> battery_of(supply) is None && mains_of(supply) is None,
{
}

} // verus!
