use batteryremainingd::format::{format_time, CapacityFigures, TimeFigures};
use batteryremainingd::sample::power_status;

fn finite(minutes: u64) -> TimeFigures {
    TimeFigures {
        minutes: Some(minutes),
        hours_text: format!("{:.1}", minutes as f64 / 60.0),
        days_text: format!("{:.1}", minutes as f64 / 1440.0),
    }
}

fn infinite() -> TimeFigures {
    TimeFigures { minutes: None, hours_text: String::new(), days_text: String::new() }
}

fn capacity(c: u64) -> CapacityFigures {
    CapacityFigures { rounded_text: c.to_string(), whole: c }
}

#[test]
fn readme_total_minutes() {
    assert_eq!(format_time(&finite(187), "Discharging", "%m", &capacity(72)), "187");
}

#[test]
fn readme_hours_and_minutes() {
    assert_eq!(format_time(&finite(187), "Discharging", "%H:%M", &capacity(72)), "03:07");
}

#[test]
fn readme_full_status() {
    assert_eq!(
        format_time(&finite(187), "Discharging", "[%p] %dd %Hh %Mm | %c%%", &capacity(72)),
        "[Draining] 00d 03h 07m | 72%"
    );
}

#[test]
fn hours_and_days_texts() {
    assert_eq!(format_time(&finite(187), "Full", "%h/%D", &capacity(100)), "3.1/0.1");
}

#[test]
fn seconds_are_zero() {
    assert_eq!(format_time(&finite(5), "Full", "%S %s", &capacity(100)), "00 0");
}

#[test]
fn capacity_zero_padded() {
    assert_eq!(format_time(&finite(5), "Full", "%C|%c", &capacity(7)), "007|7");
    assert_eq!(format_time(&finite(5), "Full", "%C", &capacity(100)), "100");
}

#[test]
fn many_days_not_truncated() {
    assert_eq!(format_time(&finite(1440 * 123 + 61), "Full", "%d %H %M", &capacity(1)), "123 01 01");
}

#[test]
fn unknown_specifier_kept() {
    assert_eq!(format_time(&finite(5), "Full", "a%xb", &capacity(1)), "a%xb");
}

#[test]
fn trailing_percent_kept() {
    assert_eq!(format_time(&finite(5), "Full", "5%", &capacity(1)), "5%");
}

#[test]
fn escaped_percent_before_letter() {
    assert_eq!(format_time(&finite(5), "Full", "%%m", &capacity(1)), "%m");
}

#[test]
fn plain_text_unchanged() {
    assert_eq!(format_time(&finite(5), "Full", "battery ok", &capacity(1)), "battery ok");
}

#[test]
fn status_labels() {
    assert_eq!(format_time(&finite(0), "Charging", "%p", &capacity(1)), "Charging");
    assert_eq!(format_time(&finite(0), "Not charging", "%p", &capacity(1)), "Unknown");
    assert_eq!(power_status("Discharging"), "Draining");
    assert_eq!(power_status("Full"), "Full");
    assert_eq!(power_status("Charging"), "Charging");
    assert_eq!(power_status("full"), "Unknown");
    assert_eq!(power_status(""), "Unknown");
}

#[test]
fn unbounded_estimate() {
    assert_eq!(
        format_time(&infinite(), "Charging", "%m %h %d %D %H:%M:%S %s [%p] %c%% %C", &capacity(50)),
        "inf inf inf inf 00:00:00 0 [Charging] 50% 050"
    );
}

#[test]
fn unbounded_escaped_percent() {
    assert_eq!(format_time(&infinite(), "Full", "%%m", &capacity(100)), "%m");
    assert_eq!(format_time(&infinite(), "Full", "%x", &capacity(1)), "%x");
    assert_eq!(format_time(&infinite(), "Full", "5%", &capacity(1)), "5%");
}

#[test]
fn zero_minutes() {
    assert_eq!(format_time(&finite(0), "Full", "%m %H:%M %dd", &capacity(1)), "0 00:00 00d");
}
