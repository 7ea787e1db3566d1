use cnc_control::grbl_messages::{GrblPosition, GrblState, GrblStatus};
use cnc_control::grbl_parser::{
    enclosed_by, parse_f64, parse_grbl_state, parse_grbl_status, split_by, split_by_then,
    take_until_through, take_until_through_or_all,
};
use cnc_control::number::{parse_decimal_token, Decimal};

fn dec(x: f64) -> Decimal {
    parse_decimal_token(format!("{}", x).as_bytes()).unwrap()
}

fn decs(xs: &[f64]) -> Vec<Decimal> {
    xs.iter().map(|x| dec(*x)).collect()
}

#[test]
fn test_split_by() {
    let input = b"a|b|ced";
    let result = split_by(b'|', input);
    assert_eq!(result, (&b""[..], vec![&b"a"[..], &b"b"[..], &b"ced"[..]]));
}

#[test]
fn test_split_by_empty() {
    let input = b"";
    let result = split_by(b'|', input);
    assert_eq!(result, (&b""[..], Vec::<&[u8]>::new()));
}

#[test]
fn test_enclosed_by() {
    let input = b"<robert>outside";
    let result = enclosed_by(b'<', b'>', input);
    assert_eq!(result, Some((&b"outside"[..], &b"robert"[..])));
}

#[test]
fn test_take_until_through() {
    let input = b"abc|def";
    let result = take_until_through(b'|', input);
    assert_eq!(result, Some((&b"def"[..], &b"abc"[..])));
}

#[test]
fn test_parse_float() {
    let input = b"-123.75blahblah";
    let result = parse_f64(input);
    assert_eq!(result, Some((&b"blahblah"[..], dec(-123.75))));
}

#[test]
fn test_split_by_then() {
    let input = b"10.5,1,-5.875";
    let result = split_by_then(b',', input);
    assert_eq!(result, Some((&b""[..], decs(&[10.5, 1.0, -5.875]))));
}

#[test]
fn test_take_until_through_or_all() {
    let input = b"abc|def";
    let result = take_until_through_or_all(b'|', input);
    assert_eq!(result, (&b"def"[..], &b"abc"[..]));
}

#[test]
fn test_take_until_through_or_all_with_all() {
    let input = b"abc";
    let result = take_until_through_or_all(b'|', input);
    assert_eq!(result, (&b""[..], &b"abc"[..]));
}

#[test]
fn test_map_enclosed_by_split_by() {
    let input = b"<a|b|c>";
    let result = enclosed_by(b'<', b'>', input).map(|(rest, body)| (rest, split_by(b'|', body).1));
    assert_eq!(result, Some((&b""[..], vec![&b"a"[..], &b"b"[..], &b"c"[..]])));
}

#[test]
fn test_map_enclosed_by_take_first_split_by() {
    let input = b"<IDLE|xy|z>";
    let result = enclosed_by(b'<', b'>', input).and_then(|(rest, body)| {
        take_until_through(b'|', body).map(|(after, first)| (rest, (first, split_by(b'|', after).1)))
    });
    assert_eq!(
        result,
        Some((&b""[..], (&b"IDLE"[..], vec![&b"xy"[..], &b"z"[..]])))
    );
}

#[test]
fn test_parse_grbl_state() {
    let input = b"Idle";
    let result = parse_grbl_state(input);
    assert_eq!(result, Some((&b""[..], GrblState::Idle)));
}

#[test]
fn test_parse_grbl_status() {
    let input = b"<Idle|MPos:0.00,1.00,3.00|Pn:XY|WCO:5.00,-5.25,17>";
    let result = parse_grbl_status(input);
    let mut status = GrblStatus::new(
        GrblState::Idle,
        GrblPosition::Machine(decs(&[0.0, 1.0, 3.0])),
    );
    status.work_coordinate_offset = Some(decs(&[5.00, -5.25, 17.0]));
    status.pins = Some(b"XY".to_vec());
    assert_eq!(result, Some((&b""[..], status)));
}

#[test]
fn test_parse_grbl_status_2() {
    let input = b"<Idle|MPos:0.00,1.00,3.00|Pn:XY|WCO:5.00,-5.25,17|FS:100,500|Bf:15,128|Ov:25,50,200|A:SM|Unknown>";
    let result = parse_grbl_status(input);
    let mut status = GrblStatus::new(
        GrblState::Idle,
        GrblPosition::Machine(decs(&[0.0, 1.0, 3.0])),
    );
    status.work_coordinate_offset = Some(decs(&[5.00, -5.25, 17.0]));
    status.pins = Some(b"XY".to_vec());
    status.current_feed = Some(dec(100.0));
    status.current_spindle = Some(dec(500.0));
    status.planner = Some(15);
    status.rx_bytes = Some(128);
    status.feed_override = Some(dec(0.25));
    status.rapid_override = Some(dec(0.5));
    status.spindle_override = Some(dec(2.0));
    status.accessory_state = Some(b"SM".to_vec());
    status.unknown_terms.push(b"Unknown".to_vec());
    assert_eq!(result, Some((&b""[..], status)));
}

#[test]
fn test_parse_grbl_status_3() {
    let input = b"<Idle|MPos:0.00,1.00,3.00>";
    let result = parse_grbl_status(input);
    let status = GrblStatus::new(
        GrblState::Idle,
        GrblPosition::Machine(decs(&[0.0, 1.0, 3.0])),
    );
    assert_eq!(result, Some((&b""[..], status)));
}

#[test]
fn test_parse_grbl_status_4() {
    let input = b"<Idle|WPos:0.00,1.00,3.00>";
    let result = parse_grbl_status(input);
    let status = GrblStatus::new(GrblState::Idle, GrblPosition::Work(decs(&[0.0, 1.0, 3.0])));
    assert_eq!(result, Some((&b""[..], status)));
}
