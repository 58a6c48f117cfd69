//! Battery samples and the status labels shown to users.

use vstd::prelude::*;
use crate::text::{parse_u64, parsed_u64, same_text, trim_text, trimmed};

verus! {

/// How the capacity percentage of a sample is known: reported by the
/// battery as a whole percentage, or only as the ratio `energy / full`
/// (with `full > 0`), or not at all.
#[derive(Clone, Copy, PartialEq, Eq, Debug)]
pub enum Capacity {
    Reported(u64),
    Ratio { energy: u64, full: u64 },
    Unknown,
}

/// One reading of the battery: the power drawn (or taken in), the energy
/// left to drain (or to fill, while charging), the raw status, and the
/// capacity percentage.
#[derive(Debug)]
pub struct BatterySample {
    pub power: u64,
    pub energy_remaining: u64,
    pub status: String,
    pub capacity: Capacity,
}

impl Clone for BatterySample {
    /// A copy with the same readings.
    fn clone(&self) -> (r: BatterySample)
        ensures
            r == *self,
    {
        BatterySample {
            power: self.power,
            energy_remaining: self.energy_remaining,
            status: self.status.clone(),
            capacity: self.capacity,
        }
    }
}

/// The label that `%p` shows for a raw sysfs status.
pub open spec fn status_label(status: Seq<char>) -> Seq<char> {
    if status == "Charging"@ {
        "Charging"@
    } else if status == "Discharging"@ {
        "Draining"@
    } else if status == "Full"@ {
        "Full"@
    } else {
        "Unknown"@
    }
}

/// Maps a sysfs battery status to the label shown to users:
/// `Charging`, `Draining` (for `Discharging`), `Full`, or `Unknown`.
pub fn power_status(status: &str) -> (label: &str)
    ensures
        label@ == status_label(status@),
{
    if same_text(status, "Charging") {
        "Charging"
    } else if same_text(status, "Discharging") {
        "Draining"
    } else if same_text(status, "Full") {
        "Full"
    } else {
        "Unknown"
    }
}


/// The raw contents of the sysfs files of one battery, `None` for a file
/// that could not be read.
pub struct SysfsReadings {
    pub energy_now: Option<String>,
    pub charge_now: Option<String>,
    pub voltage_now: Option<String>,
    pub energy_full: Option<String>,
    pub charge_full: Option<String>,
    pub power_now: Option<String>,
    pub current_now: Option<String>,
    pub status: Option<String>,
    pub capacity: Option<String>,
}

/// The number a sysfs file holds: its trimmed text parsed as a `u64`.
pub open spec fn reading(text: Option<String>) -> Option<u64> {
    match text {
        Some(t) => parsed_u64(trimmed(t@)),
        None => None,
    }
}

/// A quantity read directly, or else computed as `a · b / 1_000_000` (in
/// `u64` arithmetic that wraps on overflow) from two other readings.
pub open spec fn direct_or_product(direct: Option<u64>, a: Option<u64>, b: Option<u64>) -> Option<u64> {
    match direct {
        Some(v) => Some(v),
        None => match (a, b) {
            (Some(x), Some(y)) => Some(x.wrapping_mul(y) / 1_000_000),
            _ => None,
        },
    }
}

/// The status text: the trimmed contents of the status file, or `Unknown`.
pub open spec fn status_text(text: Option<String>) -> Seq<char> {
    match text {
        Some(t) => trimmed(t@),
        None => "Unknown"@,
    }
}

/// The energy still to go: to full while charging (zero if already above
/// full), none when full, and otherwise the energy left to drain.
pub open spec fn remaining_energy(status: Seq<char>, energy: u64, full: u64) -> u64 {
    if status == "Charging"@ {
        if energy > full {
            0
        } else {
            (full - energy) as u64
        }
    } else if status == "Full"@ {
        0
    } else {
        energy
    }
}

/// The capacity: as reported, or else as the ratio of energy to full energy
/// where full energy is positive.
pub open spec fn capacity_of(reported: Option<u64>, energy: u64, full: u64) -> Capacity {
    match reported {
        Some(c) => Capacity::Reported(c),
        None => if full > 0 {
            Capacity::Ratio { energy, full }
        } else {
            Capacity::Unknown
        },
    }
}

/// The sample that a set of readings gives, as
/// `(power, energy_remaining, status, capacity)`: none when the energy,
/// the full energy or the power cannot be had.
pub open spec fn readings_sample(r: SysfsReadings) -> Option<(u64, u64, Seq<char>, Capacity)> {
    let energy = direct_or_product(reading(r.energy_now), reading(r.charge_now), reading(r.voltage_now));
    let full = direct_or_product(reading(r.energy_full), reading(r.charge_full), reading(r.voltage_now));
    let power = direct_or_product(reading(r.power_now), reading(r.current_now), reading(r.voltage_now));
    match (energy, full, power) {
        (Some(e), Some(f), Some(p)) => {
            let status = status_text(r.status);
            Some((p, remaining_energy(status, e, f), status, capacity_of(reading(r.capacity), e, f)))
        },
        _ => None,
    }
}

/// The capacity does not depend on the status: when no capacity is
/// reported and the full energy is positive, it is the ratio of the energy
/// held (read directly or computed from charge and voltage) to the full
/// energy; and the remaining energy is what is left to fill while charging,
/// nothing when full, and the energy held otherwise.
pub proof fn lemma_sample_quantities(r: SysfsReadings)
    ensures
        readings_sample(r) matches Some((p, rem, st, cap)) ==> {
            let e = direct_or_product(reading(r.energy_now), reading(r.charge_now), reading(r.voltage_now))->0;
            let f = direct_or_product(reading(r.energy_full), reading(r.charge_full), reading(r.voltage_now))->0;
            &&& reading(r.capacity) is None && f > 0 ==> cap == Capacity::Ratio { energy: e, full: f }
            &&& reading(r.capacity) is None && f == 0 ==> cap == Capacity::Unknown
            &&& reading(r.capacity) matches Some(c) ==> cap == Capacity::Reported(c)
            &&& st == "Charging"@ && e <= f ==> rem + e == f
            &&& st == "Charging"@ && e > f ==> rem == 0
            &&& st == "Full"@ ==> rem == 0
            &&& st != "Charging"@ && st != "Full"@ ==> rem == e
            &&& p == direct_or_product(reading(r.power_now), reading(r.current_now), reading(r.voltage_now))->0
        },
{
    reveal_strlit("Charging");
    reveal_strlit("Full");
    let ev = direct_or_product(reading(r.energy_now), reading(r.charge_now), reading(r.voltage_now));
    let fv = direct_or_product(reading(r.energy_full), reading(r.charge_full), reading(r.voltage_now));
    let pv = direct_or_product(reading(r.power_now), reading(r.current_now), reading(r.voltage_now));
    if ev is Some && fv is Some && pv is Some {
        let e = ev->0;
        let f = fv->0;
        let st = status_text(r.status);
        assert(readings_sample(r) == Some((pv->0, remaining_energy(st, e, f), st, capacity_of(reading(r.capacity), e, f))));
        assert("Charging"@.len() == 8);
        assert("Full"@.len() == 4);
        assert("Charging"@ != "Full"@);
    }
}

/// Two sets of readings that differ only in their status give the same
/// power and capacity.
pub proof fn lemma_status_keeps_capacity(r1: SysfsReadings, r2: SysfsReadings)
    requires
        r1.energy_now == r2.energy_now,
        r1.charge_now == r2.charge_now,
        r1.voltage_now == r2.voltage_now,
        r1.energy_full == r2.energy_full,
        r1.charge_full == r2.charge_full,
        r1.power_now == r2.power_now,
        r1.current_now == r2.current_now,
        r1.capacity == r2.capacity,
    ensures
        readings_sample(r1) is Some <==> readings_sample(r2) is Some,
        readings_sample(r1) matches Some((p1, rem1, st1, cap1)) ==> (readings_sample(r2) matches Some((p2, rem2, st2, cap2))
            && p1 == p2 && cap1 == cap2),
{
}

/// The number in one sysfs file.
pub fn read_number(text: &Option<String>) -> (r: Option<u64>)
    ensures
        r == reading(*text),
{
    match text {
        Some(t) => {
            let body = trim_text(t.as_str());
            parse_u64(body.as_str())
        },
        None => None,
    }
}

/// A quantity read directly, or else computed from two other readings.
fn direct_or_scaled(direct: Option<u64>, a: Option<u64>, b: Option<u64>) -> (r: Option<u64>)
    ensures
        r == direct_or_product(direct, a, b),
{
    match direct {
        Some(v) => Some(v),
        None => match (a, b) {
            (Some(x), Some(y)) => Some(x.wrapping_mul(y) / 1_000_000),
            _ => None,
        },
    }
}

/// Builds a sample from the contents of a battery's sysfs files: energy,
/// full energy and power come from `energy_now`, `energy_full` and
/// `power_now`, or else from `charge_now`, `charge_full` and `current_now`
/// times `voltage_now`; the remaining energy depends on the status, and the
/// capacity is reported or derived. `None` when a quantity cannot be had.
pub fn sample_from_readings(r: &SysfsReadings) -> (s: Option<BatterySample>)
    ensures
        match s {
            None => readings_sample(*r) is None,
            Some(x) => readings_sample(*r) == Some(
                (x.power, x.energy_remaining, x.status@, x.capacity),
            ),
        },
{
    let voltage = read_number(&r.voltage_now);
    let energy = match direct_or_scaled(read_number(&r.energy_now), read_number(&r.charge_now), voltage) {
        Some(e) => e,
        None => return None,
    };
    let full = match direct_or_scaled(read_number(&r.energy_full), read_number(&r.charge_full), voltage) {
        Some(f) => f,
        None => return None,
    };
    let power = match direct_or_scaled(read_number(&r.power_now), read_number(&r.current_now), voltage) {
        Some(p) => p,
        None => return None,
    };
    let status = match &r.status {
        Some(t) => trim_text(t.as_str()),
        None => String::from_str("Unknown"),
    };
    let energy_remaining = if same_text(status.as_str(), "Charging") {
        if energy > full {
            0
        } else {
            full - energy
        }
    } else if same_text(status.as_str(), "Full") {
        0
    } else {
        energy
    };
    let capacity = match read_number(&r.capacity) {
        Some(c) => Capacity::Reported(c),
        None => if full > 0 {
            Capacity::Ratio { energy, full }
        } else {
            Capacity::Unknown
        },
    };
    Some(BatterySample { power, energy_remaining, status, capacity })
}


/// Whether the contents of a power supply's `type` file name a battery.
pub fn is_battery_type(type_text: &str) -> (r: bool)
    ensures
        r == (trimmed(type_text@) == "Battery"@),
{
    let t = trim_text(type_text);
    same_text(t.as_str(), "Battery")
}

} // verus!
