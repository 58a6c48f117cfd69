use batteryremainingd::args::{choose_mode, parse_args, Mode, ParsedArgs};

fn args(list: &[&str]) -> Vec<String> {
    let mut v = vec!["batteryremainingd".to_string()];
    for a in list {
        v.push(a.to_string());
    }
    v
}

fn parsed(list: &[&str]) -> ParsedArgs {
    parse_args(&args(list)).expect("arguments should parse")
}

fn error(list: &[&str]) -> String {
    parse_args(&args(list)).expect_err("arguments should be refused")
}

#[test]
fn no_arguments_asks_help() {
    let p = parsed(&[]);
    assert!(p.help && !p.daemon && !p.monitor && !p.include_charging);
    assert!(p.format.is_none());
}

#[test]
fn empty_command_line_parses_to_nothing() {
    let p = parse_args(&Vec::new()).unwrap();
    assert!(!p.help && !p.daemon && !p.monitor && !p.include_charging && p.format.is_none());
}

#[test]
fn long_options() {
    let p = parsed(&["--daemon", "--monitor", "--include-charging", "--format", "%H:%M"]);
    assert!(p.daemon && p.monitor && p.include_charging && !p.help);
    assert_eq!(p.format.as_deref(), Some("%H:%M"));
    assert!(parsed(&["--help"]).help);
}

#[test]
fn short_options_combine() {
    let a = parsed(&["-mc"]);
    let b = parsed(&["-m", "-c"]);
    assert!(a.monitor && a.include_charging && !a.daemon && !a.help);
    assert_eq!((a.monitor, a.include_charging, a.daemon, a.help), (b.monitor, b.include_charging, b.daemon, b.help));
    let c = parsed(&["-cm0", "-f", "%H:%M"]);
    assert!(c.monitor && c.include_charging);
    assert_eq!(c.format.as_deref(), Some("%H:%M"));
}

#[test]
fn attached_format() {
    assert_eq!(parsed(&["-f%m"]).format.as_deref(), Some("%m"));
    assert_eq!(parsed(&["-f"," x"]).format.as_deref(), Some(" x"));
}

#[test]
fn double_dash_stops() {
    let p = parsed(&["-d", "--", "--bogus"]);
    assert!(p.daemon);
}

#[test]
fn format_needs_value() {
    assert_eq!(error(&["--format"]), "error: --format requires a format string");
    assert_eq!(error(&["-f"]), "error: -f requires a format string");
}

#[test]
fn unknown_flags() {
    assert_eq!(error(&["--bogus"]), "error: unknown flag '--bogus'");
    assert_eq!(error(&["-mx"]), "error: unknown flag '-x'");
    assert_eq!(error(&["-mf"]), "error: -f cannot be combined with other flags");
}

#[test]
fn unexpected_argument() {
    assert_eq!(error(&["hello"]), "error: unexpected argument 'hello'");
    assert_eq!(error(&["-"]), "error: unexpected argument '-'");
}

#[test]
fn mode_help_first() {
    match choose_mode(&parsed(&["-h", "-d"])) {
        Mode::Help => {}
        m => panic!("unexpected {:?}", m),
    }
    match choose_mode(&parsed(&["-d", "-m"])) {
        Mode::Daemon => {}
        m => panic!("unexpected {:?}", m),
    }
}

#[test]
fn mode_monitor_default_format() {
    match choose_mode(&parsed(&["-mc"])) {
        Mode::Monitor { format, include_charging } => {
            assert_eq!(format, "[STATUS] %p | [TIME] %H:%M");
            assert!(include_charging);
        }
        m => panic!("unexpected {:?}", m),
    }
}

#[test]
fn mode_query_default_format() {
    match choose_mode(&parsed(&["-c"])) {
        Mode::Query { format, include_charging } => {
            assert_eq!(format, "%m");
            assert!(include_charging);
        }
        m => panic!("unexpected {:?}", m),
    }
    match choose_mode(&parsed(&["-f", "%H:%M"])) {
        Mode::Query { format, include_charging } => {
            assert_eq!(format, "%H:%M");
            assert!(!include_charging);
        }
        m => panic!("unexpected {:?}", m),
    }
}
