use cnc_control::api::{feed_override, rapid_override, spindle_override, RUN_GCODE_FILE};
use cnc_control::gcode::{AxisValues, GCodeCommand, GCodeLine, GCodeModal, MoveMode};
use cnc_control::grbl_messages::{GrblFullInfo, GrblState, GrblStateInfo, RealtimeCommand};
use cnc_control::jobs::{default_settings, ArcHashMap, FutureOrPending, StreamJob};
use cnc_control::number::{parse_decimal_token, push_fixed, Decimal};
use cnc_control::paths::{is_legal_file_name, is_legal_path};
use cnc_control::svg_path::{parse_path_segments, Mode};

fn dec(x: f64) -> Decimal {
    parse_decimal_token(format!("{}", x).as_bytes()).unwrap()
}

fn fixed(d: Decimal, n: usize) -> String {
    let mut out = Vec::new();
    push_fixed(&mut out, d, n);
    String::from_utf8(out).unwrap()
}

#[test]
fn decimals_read_and_write() {
    assert_eq!(parse_decimal_token(b"-5.250"), Some(Decimal { mantissa: -525, exponent: 2 }));
    assert_eq!(parse_decimal_token(b"1."), Some(Decimal { mantissa: 1, exponent: 0 }));
    assert_eq!(parse_decimal_token(b".5"), Some(Decimal { mantissa: 5, exponent: 1 }));
    assert_eq!(parse_decimal_token(b"-"), None);
    assert_eq!(parse_decimal_token(b"1.2.3"), None);
    assert_eq!(parse_decimal_token(b""), None);
    assert_eq!(fixed(dec(2.5), 0), "2");
    assert_eq!(fixed(dec(3.5), 0), "4");
    assert_eq!(fixed(dec(-0.004), 2), "-0.00");
    assert_eq!(fixed(dec(12.0), 3), "12.000");
}

#[test]
fn decimal_arithmetic_is_exact() {
    assert_eq!(dec(0.1).add(dec(0.2)), dec(0.3));
    assert_eq!(dec(1.0).sub(dec(0.25)), dec(0.75));
    assert_eq!(dec(25.0).hundredth(), dec(0.25));
}

#[test]
fn work_position_subtracts_the_offset() {
    let info = GrblStateInfo {
        state: GrblState::Idle,
        machine_position: vec![dec(10.0), dec(5.5), dec(1.0)],
        work_coordinate_offset: vec![dec(2.0), dec(0.5)],
    };
    let full: GrblFullInfo = info.to_full_info();
    assert_eq!(full.work_position(), vec![dec(8.0), dec(5.0)]);
}

#[test]
fn realtime_commands_have_their_bytes() {
    assert_eq!(RealtimeCommand::Reset.code(), 0x18);
    assert_eq!(RealtimeCommand::StatusReport.code(), b'?');
    assert_eq!(RealtimeCommand::CycleStart.code(), b'~');
    assert_eq!(RealtimeCommand::FeedHold.code(), b'!');
    assert_eq!(RealtimeCommand::ToggleSpindleStop.code(), 0x9E);
}

#[test]
fn default_settings_write_three_digits() {
    let spec = default_settings();
    let line = GCodeLine {
        modals: vec![GCodeModal::SetFeedrate(dec(250.0))],
        command: Some(GCodeCommand::Move {
            mode: MoveMode::Rapid,
            position: AxisValues(vec![(0, dec(1.0)), (3, dec(-0.5))]),
        }),
    };
    assert!(spec.is_printable(&line));
    assert_eq!(spec.line_bytes(&line), b"F250.000 G0 X1.000 A-0.500\n".to_vec());
    let bad = GCodeLine {
        modals: vec![],
        command: Some(GCodeCommand::Move {
            mode: MoveMode::Rapid,
            position: AxisValues(vec![(7, dec(1.0))]),
        }),
    };
    assert!(!spec.is_printable(&bad));
}

#[test]
fn shared_entries_keep_the_first_value() {
    let mut map: ArcHashMap<String> = ArcHashMap::new();
    assert_eq!(map.get_or_else(1, "a".to_string()).get(), "a");
    assert_eq!(map.get_or_else(1, "b".to_string()).get(), "a");
    assert_eq!(map.get_or_else(2, "c".to_string()).get(), "c");
}

#[test]
fn keys_are_released_with_their_last_entry() {
    let mut map: ArcHashMap<String> = ArcHashMap::new();
    let first = map.get_or_else(1, "a".to_string());
    let second = map.get_or_else(1, "b".to_string());
    assert_eq!(second.get(), "a");
    map.release(first);
    let third = map.get_or_else(1, "c".to_string());
    assert_eq!(third.get(), "a");
    map.release(second);
    map.release(third);
    let fresh = map.get_or_else(1, "d".to_string());
    assert_eq!(fresh.get(), "d");
}

#[test]
fn future_or_pending_reports_presence() {
    let mut f = FutureOrPending::new(Some(3));
    assert!(f.is_some());
    assert!(!f.is_none());
    f.complete();
    assert!(f.is_none());
    let g: FutureOrPending<u8> = FutureOrPending::new(None);
    assert!(g.is_none());
    let job = StreamJob::new(vec![1, 2], 2);
    assert_eq!(job.1, 2);
}

#[test]
fn file_names_are_checked() {
    assert!(is_legal_path("part_1.nc"));
    assert!(!is_legal_path("../etc/passwd"));
    assert!(!is_legal_path("a b"));
    assert!(!is_legal_path("caf\u{e9}.nc"));
    assert!(is_legal_file_name("x.nc"));
    assert!(!is_legal_file_name(&"a".repeat(256)));
    assert!(is_legal_file_name(&"a".repeat(255)));
}

#[test]
fn routes_are_fixed() {
    assert_eq!(RUN_GCODE_FILE, "/job/run_file");
    assert_eq!(feed_override().plus_10, "/command/override/feed/plus10");
    assert_eq!(spindle_override().minus_1, "/command/override/spindle/minus1");
    assert_eq!(rapid_override().quarter, "/command/override/rapid/quarter");
}

#[test]
fn written_numbers_read_back() {
    for x in [0.0, 1.5, -2.25, 1000.125, -0.001, 123456.0] {
        let d = dec(x);
        let text = fixed(d, 3);
        assert_eq!(parse_decimal_token(text.as_bytes()), Some(d), "{}", text);
    }
    // Digits beyond those written are rounded away.
    assert_eq!(parse_decimal_token(fixed(dec(0.0005), 3).as_bytes()), Some(dec(0.0)));
}

#[test]
fn sums_and_differences_are_exact() {
    let a = dec(123456.789);
    let b = dec(-0.001);
    assert_eq!(a.add(b), dec(123456.788));
    assert_eq!(a.sub(b), dec(123456.79));
    assert_eq!(b.sub(b), dec(0.0));
}

#[test]
fn path_data_splits_into_segments() {
    let data = "M 1,2 3.5,-4 l1e2,.5 H 7 v -2 3 z m0,0";
    let segments = parse_path_segments(data).unwrap();
    let modes: Vec<Mode> = segments.iter().map(|s| s.mode).collect();
    assert_eq!(
        modes,
        vec![
            Mode::MoveAbsolute,
            Mode::LineRelative,
            Mode::HorizontalAbsolute,
            Mode::VerticalRelative,
            Mode::ClosePath,
            Mode::MoveRelative
        ]
    );
    let text = |(a, b): (usize, usize)| &data[a..b];
    let args: Vec<Vec<&str>> =
        segments.iter().map(|s| s.args.iter().map(|r| text(*r)).collect()).collect();
    assert_eq!(args[0], vec!["1", "2", "3.5", "-4"]);
    assert_eq!(args[1], vec!["1e2", ".5"]);
    assert_eq!(args[2], vec!["7"]);
    assert_eq!(args[3], vec!["-2", "3"]);
    assert!(args[4].is_empty());
    assert_eq!(args[5], vec!["0", "0"]);
    // An unknown command letter makes the whole path unreadable.
    assert!(parse_path_segments("M 0,0 C 1,1").is_none());
    // `inf` and `NaN` are numbers; an exponent mark needs digits.
    let s = parse_path_segments("H inf NaN").unwrap();
    assert_eq!(s[0].args.len(), 2);
    assert!(parse_path_segments("H 1e").is_none());
}
