use batteryremainingd::sample::{
    is_battery_type, read_number, sample_from_readings, Capacity, SysfsReadings,
};
use batteryremainingd::text::parse_u64;

fn text(s: &str) -> Option<String> {
    Some(s.to_string())
}

fn empty() -> SysfsReadings {
    SysfsReadings {
        energy_now: None,
        charge_now: None,
        voltage_now: None,
        energy_full: None,
        charge_full: None,
        power_now: None,
        current_now: None,
        status: None,
        capacity: None,
    }
}

#[test]
fn numbers_are_trimmed_and_parsed() {
    assert_eq!(read_number(&text(" 42\n")), Some(42));
    assert_eq!(read_number(&text("+7")), Some(7));
    assert_eq!(read_number(&text("-7")), None);
    assert_eq!(read_number(&text("")), None);
    assert_eq!(read_number(&None), None);
    assert_eq!(parse_u64("18446744073709551615"), Some(u64::MAX));
    assert_eq!(parse_u64("18446744073709551616"), None);
    assert_eq!(parse_u64("+"), None);
    assert_eq!(parse_u64("12a"), None);
    assert_eq!(parse_u64(" 12"), None);
    assert_eq!(parse_u64("0012"), Some(12));
    assert_eq!(read_number(&text("\u{3000}42\t\r\n")), Some(42));
    assert_eq!(read_number(&text("\u{a0}7\u{2028}")), Some(7));
}

#[test]
fn energy_interface() {
    let mut r = empty();
    r.energy_now = text("30000000\n");
    r.energy_full = text("50000000\n");
    r.power_now = text("10000000\n");
    r.status = text("Discharging\n");
    r.capacity = text("60\n");
    let s = sample_from_readings(&r).unwrap();
    assert_eq!(s.power, 10_000_000);
    assert_eq!(s.energy_remaining, 30_000_000);
    assert_eq!(s.status, "Discharging");
    assert_eq!(s.capacity, Capacity::Reported(60));
}

#[test]
fn charge_interface() {
    let mut r = empty();
    r.charge_now = text("2000000");
    r.charge_full = text("4000000");
    r.current_now = text("500000");
    r.voltage_now = text("12000000");
    r.status = text("Charging");
    let s = sample_from_readings(&r).unwrap();
    assert_eq!(s.power, 6_000_000);
    assert_eq!(s.energy_remaining, 48_000_000 - 24_000_000);
    assert_eq!(s.capacity, Capacity::Ratio { energy: 24_000_000, full: 48_000_000 });
}

#[test]
fn products_wrap_on_overflow() {
    let mut r = empty();
    r.energy_now = text("1");
    r.energy_full = text("1");
    r.current_now = text("4294967296");
    r.voltage_now = text("4294967297");
    let s = sample_from_readings(&r).unwrap();
    assert_eq!(s.power, 4294967296u64.wrapping_mul(4294967297) / 1_000_000);
}

#[test]
fn status_rules() {
    let mut r = empty();
    r.energy_now = text("10");
    r.energy_full = text("100");
    r.power_now = text("5");
    let s = sample_from_readings(&r).unwrap();
    assert_eq!(s.status, "Unknown");
    assert_eq!(s.energy_remaining, 10);
    r.status = text("Full");
    assert_eq!(sample_from_readings(&r).unwrap().energy_remaining, 0);
    r.status = text("Charging");
    assert_eq!(sample_from_readings(&r).unwrap().energy_remaining, 90);
    r.energy_now = text("150");
    assert_eq!(sample_from_readings(&r).unwrap().energy_remaining, 0);
}

#[test]
fn capacity_fallbacks() {
    let mut r = empty();
    r.energy_now = text("10");
    r.energy_full = text("0");
    r.power_now = text("5");
    assert_eq!(sample_from_readings(&r).unwrap().capacity, Capacity::Unknown);
    r.energy_full = text("40");
    assert_eq!(sample_from_readings(&r).unwrap().capacity, Capacity::Ratio { energy: 10, full: 40 });
}

#[test]
fn missing_quantities() {
    let mut r = empty();
    assert!(sample_from_readings(&r).is_none());
    r.energy_now = text("10");
    r.energy_full = text("100");
    assert!(sample_from_readings(&r).is_none());
    r.current_now = text("5");
    assert!(sample_from_readings(&r).is_none());
    r.voltage_now = text("1000000");
    assert_eq!(sample_from_readings(&r).unwrap().power, 5);
    r.energy_now = text("junk");
    assert!(sample_from_readings(&r).is_none());
}

#[test]
fn battery_type() {
    assert!(is_battery_type("Battery\n"));
    assert!(is_battery_type("  Battery "));
    assert!(!is_battery_type("Mains\n"));
    assert!(!is_battery_type("battery"));
    assert!(is_battery_type("\u{2003}Battery\u{85}"));
}
