use batteryremainingd::estimate::{compute_minutes_remaining, reply_estimate, Estimate};
use batteryremainingd::sample::{BatterySample, Capacity};
use batteryremainingd::trend::{PowerTrend, SmoothedPower, TrendData, TREND_SAMPLES};

fn sample(power: u64, energy: u64, status: &str) -> BatterySample {
    BatterySample {
        power,
        energy_remaining: energy,
        status: status.to_string(),
        capacity: Capacity::Reported(50),
    }
}

fn window(powers: &[u64]) -> TrendData {
    let mut t = TrendData::new();
    for p in powers {
        t.push(sample(*p, 1000, "Discharging"));
    }
    t
}

#[test]
fn window_keeps_last_sixty() {
    let mut t = TrendData::new();
    assert_eq!(t.len(), 0);
    assert!(t.latest().is_none());
    for p in 0..75u64 {
        t.push(sample(p, 1, "Discharging"));
        assert!(t.len() <= TREND_SAMPLES);
        assert_eq!(t.latest().unwrap().power, p);
    }
    assert_eq!(t.len(), 60);
    // the oldest kept sample is number 15: weights 1..=60 over powers 15..=74
    let s = t.smoothed_power().unwrap();
    let expected: u128 = (0..60u128).map(|i| (i + 15) * (i + 1)).sum();
    assert_eq!(s, SmoothedPower { weighted: expected, total: 1830 });
}

#[test]
fn smoothed_power_weights_newer_more() {
    assert_eq!(window(&[]).smoothed_power(), None);
    assert_eq!(window(&[10, 20]).smoothed_power(), Some(SmoothedPower { weighted: 50, total: 3 }));
}

#[test]
fn smoothed_between_extremes() {
    let s = window(&[3, 9, 5]).smoothed_power().unwrap();
    assert_eq!(s, SmoothedPower { weighted: 36, total: 6 });
    assert!(3 * s.total <= s.weighted && s.weighted <= 9 * s.total);
}

#[test]
fn trend_follows_direction() {
    assert!(window(&[1, 2, 2, 7]).power_trend_slope().num > 0);
    assert!(window(&[9, 9, 4, 1]).power_trend_slope().num < 0);
}

#[test]
fn smoothed_constant_power() {
    let s = window(&[7, 7, 7, 7]).smoothed_power().unwrap();
    assert_eq!(s.weighted, 7 * s.total);
}

#[test]
fn trend_slope_values() {
    assert_eq!(window(&[1, 2]).power_trend_slope(), PowerTrend { num: 0, den: 1 });
    assert_eq!(window(&[0, 0, 0]).power_trend_slope(), PowerTrend { num: 0, den: 1 });
    let t = window(&[1, 2, 3]).power_trend_slope();
    assert_eq!(t, PowerTrend { num: 24, den: 48 });
    let falling = window(&[30, 20, 10]).power_trend_slope();
    assert!(falling.num < 0 && falling.den > 0);
    assert_eq!(window(&[5, 5, 5, 5, 5]).power_trend_slope().num, 0);
}

#[test]
fn estimate_choices() {
    let short = window(&[10, 10]);
    assert_eq!(compute_minutes_remaining(&sample(10, 0, "Discharging"), &short), Estimate::Zero);
    assert_eq!(compute_minutes_remaining(&sample(0, 100, "Discharging"), &short), Estimate::Unbounded);
    assert_eq!(
        compute_minutes_remaining(&sample(10, 100, "Discharging"), &short),
        Estimate::Direct { energy: 100, power: 10 }
    );
    let zeros = window(&[0, 0, 0, 0, 0]);
    assert_eq!(
        compute_minutes_remaining(&sample(10, 100, "Discharging"), &zeros),
        Estimate::Direct { energy: 100, power: 10 }
    );
    let long = window(&[1, 2, 3, 4, 5]);
    assert_eq!(
        compute_minutes_remaining(&sample(5, 100, "Discharging"), &long),
        Estimate::Blended {
            energy: 100,
            power: 5,
            smoothed: SmoothedPower { weighted: 55, total: 15 },
            trend: long.power_trend_slope(),
        }
    );
}

#[test]
fn reply_for_charging_and_full() {
    assert_eq!(reply_estimate(&TrendData::new(), false), None);
    let mut t = TrendData::new();
    t.push(sample(10, 200, "Charging"));
    assert_eq!(reply_estimate(&t, false), Some(Estimate::Zero));
    assert_eq!(reply_estimate(&t, true), Some(Estimate::Direct { energy: 200, power: 10 }));
    t.push(sample(10, 0, "Full"));
    assert_eq!(reply_estimate(&t, false), Some(Estimate::Zero));
    t.push(sample(10, 300, "Discharging"));
    assert_eq!(reply_estimate(&t, false), Some(Estimate::Direct { energy: 300, power: 10 }));
}

#[test]
fn snapshot_same_length() {
    let t = window(&[1, 2, 3]);
    let s = t.snapshot();
    assert_eq!(s.len(), 3);
    assert_eq!(s.latest().unwrap().power, 3);
}

#[test]
fn trend_strict_direction() {
    assert!(window(&[0, 1, 2]).power_trend_slope().num > 0);
    assert!(window(&[2, 1, 0]).power_trend_slope().num < 0);
}

#[test]
fn trend_scale_invariant() {
    let a = window(&[3, 5, 4, 9]).power_trend_slope();
    let b = window(&[6, 10, 8, 18]).power_trend_slope();
    assert_eq!(a.num * b.den, b.num * a.den);
    assert!(a.num != 0);
}
