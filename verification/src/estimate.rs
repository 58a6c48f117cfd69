//! Which estimate of the time remaining applies, and from which figures.

use vstd::prelude::*;
use crate::sample::BatterySample;
use crate::text::same_text;
use crate::trend::{
    lemma_smoothed_between, relative_slope, weight_total, weighted_power, PowerTrend, SmoothedPower, TrendData,
};

verus! {

/// How the minutes remaining are to be computed.
/// - `Zero`: nothing remains (no energy left to go).
/// - `Unbounded`: no power flows, so the time is infinite.
/// - `Direct`: `energy / power` hours, from the latest sample alone.
/// - `Blended`: 70% from the smoothed power, 15% from the latest power and
///   15% from the power predicted by the trend.
#[derive(Clone, Copy, Debug, PartialEq, Eq)]
pub enum Estimate {
    Zero,
    Unbounded,
    Direct { energy: u64, power: u64 },
    Blended { energy: u64, power: u64, smoothed: SmoothedPower, trend: PowerTrend },
}

/// How many samples the window must hold before the trend is used.
pub const MIN_TREND_SAMPLES: usize = 5;

/// The estimate for the sample `latest` against the window `samples`.
pub open spec fn estimate_of(latest: BatterySample, samples: Seq<BatterySample>) -> Estimate {
    let n = samples.len() as int;
    if latest.energy_remaining == 0 {
        Estimate::Zero
    } else if latest.power == 0 {
        Estimate::Unbounded
    } else if n < MIN_TREND_SAMPLES || weighted_power(samples, n) == 0 {
        Estimate::Direct { energy: latest.energy_remaining, power: latest.power }
    } else {
        Estimate::Blended {
            energy: latest.energy_remaining,
            power: latest.power,
            smoothed: SmoothedPower {
                weighted: weighted_power(samples, n) as u128,
                total: weight_total(n) as u128,
            },
            trend: PowerTrend {
                num: relative_slope(samples).0 as i128,
                den: relative_slope(samples).1 as i128,
            },
        }
    }
}

/// Whether a status keeps the time at zero unless charging time is asked for.
pub open spec fn holds_charge(status: Seq<char>) -> bool {
    status == "Charging"@ || status == "Full"@
}

/// The estimate a client is answered with: none without samples; zero for
/// a charging or full battery unless charging time is asked for; otherwise
/// the estimate for the latest sample.
pub open spec fn reply_of(samples: Seq<BatterySample>, include_charging: bool) -> Option<Estimate> {
    if samples.len() == 0 {
        None
    } else if holds_charge(samples.last().status@) && !include_charging {
        Some(Estimate::Zero)
    } else {
        Some(estimate_of(samples.last(), samples))
    }
}

/// What each estimate means in terms of the latest sample: nothing left is
/// zero minutes whatever the power; with energy left, no power is an
/// unbounded time; otherwise the estimate carries the latest sample's
/// energy and power, and uses the trend only with at least
/// `MIN_TREND_SAMPLES` samples whose weighted power is positive.
pub proof fn lemma_estimate_cases(latest: BatterySample, samples: Seq<BatterySample>)
    ensures
        latest.energy_remaining == 0 <==> estimate_of(latest, samples) is Zero,
        latest.energy_remaining > 0 && latest.power == 0 <==> estimate_of(latest, samples) is Unbounded,
        latest.energy_remaining > 0 && latest.power > 0 && samples.len() < MIN_TREND_SAMPLES
            ==> estimate_of(latest, samples) == (Estimate::Direct {
                energy: latest.energy_remaining,
                power: latest.power,
            }),
        estimate_of(latest, samples) matches Estimate::Direct { energy, power }
            ==> energy == latest.energy_remaining && power == latest.power && power > 0 && energy > 0,
        estimate_of(latest, samples) matches Estimate::Blended { energy, power, smoothed, trend }
            ==> energy == latest.energy_remaining && power == latest.power && power > 0 && energy > 0
                && samples.len() >= MIN_TREND_SAMPLES
                && weighted_power(samples, samples.len() as int) > 0,
{
    lemma_smoothed_between(samples, samples.len() as int, 0, u64::MAX as int);
    assert(0 * weight_total(samples.len() as int) == 0);
}

/// A client is told zero time for a charging or full battery unless it asks
/// for charging time, and zero time for any sample with no energy left.
pub proof fn lemma_reply_zero(samples: Seq<BatterySample>, include_charging: bool)
    requires
        samples.len() > 0,
    ensures
        (holds_charge(samples.last().status@) && !include_charging)
            ==> reply_of(samples, include_charging) == Some(Estimate::Zero),
        samples.last().energy_remaining == 0 ==> reply_of(samples, include_charging) == Some(Estimate::Zero),
        reply_of(samples, include_charging) is Some,
{
}

/// Decides how to estimate the minutes remaining for `latest`: zero when no
/// energy remains, unbounded when no power flows, from the latest sample
/// alone while the window is short (or its smoothed power is zero), and
/// otherwise blended with the smoothed power and its trend.
pub fn compute_minutes_remaining(latest: &BatterySample, trend: &TrendData) -> (e: Estimate)
    ensures
        e == estimate_of(*latest, trend@),
{
    if latest.energy_remaining == 0 {
        return Estimate::Zero;
    }
    if latest.power == 0 {
        return Estimate::Unbounded;
    }
    if trend.len() < MIN_TREND_SAMPLES {
        return Estimate::Direct { energy: latest.energy_remaining, power: latest.power };
    }
    let smoothed = match trend.smoothed_power() {
        Some(s) => s,
        None => return Estimate::Direct { energy: latest.energy_remaining, power: latest.power },
    };
    if smoothed.weighted == 0 {
        return Estimate::Direct { energy: latest.energy_remaining, power: latest.power };
    }
    let slope = trend.power_trend_slope();
    Estimate::Blended {
        energy: latest.energy_remaining,
        power: latest.power,
        smoothed,
        trend: slope,
    }
}

/// The estimate a client asking with `include_charging` is answered with.
pub fn reply_estimate(trend: &TrendData, include_charging: bool) -> (r: Option<Estimate>)
    ensures
        r == reply_of(trend@, include_charging),
{
    match trend.latest() {
        None => None,
        Some(sample) => {
            let status = sample.status.as_str();
            if (same_text(status, "Charging") || same_text(status, "Full")) && !include_charging {
                Some(Estimate::Zero)
            } else {
                Some(compute_minutes_remaining(sample, trend))
            }
        },
    }
}

} // verus!
