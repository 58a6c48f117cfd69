use batteryremainingd::poller::{Pause, PollStep, Poller, POLL_SECONDS, RESCAN_SECONDS};
use batteryremainingd::sample::{BatterySample, Capacity};
use batteryremainingd::trend::TrendData;

fn sample() -> BatterySample {
    BatterySample { power: 1, energy_remaining: 2, status: "Full".to_string(), capacity: Capacity::Unknown }
}

#[test]
fn scan_then_read() {
    let mut p = Poller::new();
    assert!(matches!(p.next_step(), PollStep::Scan));
    assert_eq!(p.after_scan(None), Some(Pause::Rescan));
    assert!(matches!(p.next_step(), PollStep::Scan));
    assert_eq!(p.after_scan(Some("/sys/class/power_supply/BAT0".to_string())), None);
    match p.next_step() {
        PollStep::Read(path) => assert_eq!(path, "/sys/class/power_supply/BAT0"),
        s => panic!("unexpected {:?}", s),
    }
}

#[test]
fn read_success_and_failure() {
    let mut p = Poller::new();
    let mut t = TrendData::new();
    p.after_scan(Some("BAT1".to_string()));
    assert_eq!(p.after_read(Some(sample()), &mut t), Pause::Poll);
    assert_eq!(t.len(), 1);
    assert!(matches!(p.next_step(), PollStep::Read(_)));
    assert_eq!(p.after_read(None, &mut t), Pause::Rescan);
    assert_eq!(t.len(), 1);
    assert!(matches!(p.next_step(), PollStep::Scan));
}

#[test]
fn pause_lengths() {
    assert_eq!(Pause::Poll.seconds(), POLL_SECONDS);
    assert_eq!(Pause::Rescan.seconds(), RESCAN_SECONDS);
    assert_eq!(POLL_SECONDS, 1);
    assert_eq!(RESCAN_SECONDS, 10);
}
