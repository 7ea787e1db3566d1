use cnc_control::grbl_messages::{GrblMessage, GrblState};
use cnc_control::grbl_parser::{is_greeting, parse_grbl_line};
use cnc_control::machine::{
    ImmediateRequest, LineError, MachineThread, SpeedOverride, Warning, WriteRequest,
};
use cnc_control::machine_writer::BufferCountingWriter;
use cnc_control::number::{parse_decimal_token, Decimal};

fn dec(x: f64) -> Decimal {
    parse_decimal_token(format!("{}", x).as_bytes()).unwrap()
}

fn decs(xs: &[f64]) -> Vec<Decimal> {
    xs.iter().map(|x| dec(*x)).collect()
}

#[test]
fn writer_holds_back_a_line_that_does_not_fit() {
    let mut w = BufferCountingWriter::new(10);
    assert_eq!(w.enqueue_line(b"G0X1\n".to_vec()), Some(b"G0X1\n".to_vec()));
    assert!(w.can_enqueue_line());
    // 5 bytes wait; 6 more would exceed 10.
    assert_eq!(w.enqueue_line(b"G1X22\n".to_vec()), None);
    assert!(!w.can_enqueue_line());
    // The first line is acknowledged: the held-back line now fits.
    assert_eq!(w.pop_received_line(), Some(b"G1X22\n".to_vec()));
    assert!(w.can_enqueue_line());
    assert_eq!(w.pop_received_line(), None);
    assert!(!w.has_waiting_line());
}

#[test]
fn writer_lets_at_most_eight_lines_wait() {
    let mut w = BufferCountingWriter::new(1000);
    for _ in 0..8 {
        assert!(w.enqueue_line(b"a\n".to_vec()).is_some());
    }
    assert_eq!(w.enqueue_line(b"b\n".to_vec()), None);
    assert_eq!(w.pop_received_line(), Some(b"b\n".to_vec()));
}

#[test]
fn writer_clear_forgets_everything() {
    let mut w = BufferCountingWriter::new(4);
    assert!(w.enqueue_line(b"abc\n".to_vec()).is_some());
    assert_eq!(w.enqueue_line(b"def\n".to_vec()), None);
    w.clear_waiting();
    assert!(w.can_enqueue_line());
    assert!(!w.has_waiting_line());
    assert_eq!(w.enqueue_line(b"ghi\n".to_vec()), Some(b"ghi\n".to_vec()));
}

#[test]
fn ok_answers_the_oldest_line() {
    let mut m = MachineThread::new(128);
    assert_eq!(
        m.plain_send(WriteRequest::Plain { data: b"G0 X1\n".to_vec(), result: 7 }),
        Some(b"G0 X1\n".to_vec())
    );
    assert_eq!(
        m.plain_send(WriteRequest::Plain { data: b"G0 X2\n".to_vec(), result: 8 }),
        Some(b"G0 X2\n".to_vec())
    );
    assert!(m.can_receive("ok"));
    let r = m.receive_line("ok");
    assert_eq!(r.line_ok, Some(7));
    assert!(r.warnings.is_empty());
    let r = m.receive_line("error:22");
    assert_eq!(r.line_result, Some((8, LineError::Grbl(22))));
    assert_eq!(r.warnings, vec![Warning::ErrorReceived(22)]);
    // Nothing is written any more.
    assert!(!m.can_receive("ok"));
}

#[test]
fn ok_without_listener_is_warned_about() {
    let mut m = MachineThread::new(128);
    m.writer.enqueue_line(b"$X\n".to_vec());
    let r = m.receive_line("ok");
    assert_eq!(r.line_ok, None);
    assert_eq!(r.warnings, vec![Warning::OkWithoutListener]);
}

#[test]
fn status_answers_every_status_request() {
    let mut m = MachineThread::new(128);
    assert_eq!(m.immediate_send(ImmediateRequest::Status { result: 1 }), b"?".to_vec());
    assert_eq!(m.immediate_send(ImmediateRequest::Status { result: 2 }), b"?".to_vec());
    let line = "<Idle|MPos:1.00,2.00,3.00|WCO:0.5,0.5,1>";
    assert!(m.can_receive(line));
    let r = m.receive_line(line);
    let (tickets, info) = r.status_result.unwrap();
    assert_eq!(tickets, vec![1, 2]);
    assert_eq!(info.state, GrblState::Idle);
    assert_eq!(info.machine_position, decs(&[1.0, 2.0, 3.0]));
    assert_eq!(info.work_coordinate_offset, decs(&[0.5, 0.5, 1.0]));
    assert!(m.waiting_status.is_empty());
}

#[test]
fn work_position_is_moved_by_the_known_offset() {
    let mut m = MachineThread::new(128);
    // Without a known offset a work position cannot be taken in.
    assert!(!m.can_receive("<Run|WPos:1,1,1>"));
    m.receive_line("<Idle|MPos:0,0,0|WCO:10,-2.5,0.125>");
    m.immediate_send(ImmediateRequest::Status { result: 9 });
    let r = m.receive_line("<Run|WPos:1,1,1>");
    let (tickets, info) = r.status_result.unwrap();
    assert_eq!(tickets, vec![9]);
    assert_eq!(info.state, GrblState::Run);
    assert_eq!(info.machine_position, decs(&[11.0, -1.5, 1.125]));
}

#[test]
fn reset_answers_waiting_lines_and_asks_status_again() {
    let mut m = MachineThread::new(128);
    m.plain_send(WriteRequest::Plain { data: b"G0 X1\n".to_vec(), result: 1 });
    m.plain_send(WriteRequest::Probe { data: b"G38.2 Z-5\n".to_vec(), result_line: 2, result: 3 });
    m.immediate_send(ImmediateRequest::Status { result: 4 });
    let r = m.reset();
    assert_eq!(r.failed_lines, vec![1, 2]);
    assert_eq!(r.failed_probes, vec![3]);
    assert_eq!(r.resend_status, Some(b"?".to_vec()));
    assert!(!m.writer.has_waiting_line());
    assert_eq!(m.waiting_status, vec![4]);
    let mut fresh = MachineThread::new(128);
    assert_eq!(fresh.reset().resend_status, None);
}

#[test]
fn immediate_requests_write_their_bytes() {
    let mut m = MachineThread::new(128);
    assert_eq!(m.immediate_send(ImmediateRequest::FeedHold), b"!".to_vec());
    assert_eq!(m.immediate_send(ImmediateRequest::FeedResume), b"~".to_vec());
    assert_eq!(m.immediate_send(ImmediateRequest::Reset), vec![0x18]);
    assert_eq!(
        m.immediate_send(ImmediateRequest::OverrideSpeed(SpeedOverride::FeedIncrease10)),
        vec![0x91]
    );
    assert_eq!(
        m.immediate_send(ImmediateRequest::OverrideSpeed(SpeedOverride::RapidQuarter)),
        vec![0x97]
    );
}

#[test]
fn other_lines_are_only_warned_about() {
    let mut m = MachineThread::new(128);
    assert_eq!(m.receive_line("Grbl 1.1h ['$' for help]").warnings, vec![Warning::UnexpectedGreeting]);
    assert_eq!(m.receive_line("[MSG:Disabled]").warnings, vec![Warning::UnrecognizedLine]);
    assert!(is_greeting("Grbl 1.1h ['$' for help]"));
    assert!(!is_greeting("ok"));
}

#[test]
fn grbl_lines_read_as_messages() {
    assert_eq!(parse_grbl_line("ok"), GrblMessage::GrblOk);
    assert_eq!(parse_grbl_line("error:9"), GrblMessage::GrblError(9));
    // Alarms are reported with the error code.
    assert_eq!(parse_grbl_line("ALARM:3"), GrblMessage::GrblError(3));
    assert_eq!(parse_grbl_line("Grbl 1.1f"), GrblMessage::GrblGreeting);
    assert_eq!(parse_grbl_line("error:x"), GrblMessage::Unrecognized(b"error:x".to_vec()));
    // Probe reports are not recognised.
    assert_eq!(
        parse_grbl_line("[PRB:0.000,0.000,1.000:1]"),
        GrblMessage::Unrecognized(b"[PRB:0.000,0.000,1.000:1]".to_vec())
    );
    // A known field with text left over makes the whole report unreadable.
    assert_eq!(
        parse_grbl_line("<Idle|MPos:0,0,0|Bf:15,128x>"),
        GrblMessage::Unrecognized(b"<Idle|MPos:0,0,0|Bf:15,128x>".to_vec())
    );
}

#[test]
fn status_fields_that_do_not_read_are_kept() {
    match parse_grbl_line("<Hold:1|MPos:0,0,0|Bf:x|Ln:12|F:500>") {
        GrblMessage::StatusEvent(s) => {
            assert_eq!(s.state, GrblState::Hold(1));
            assert_eq!(s.unknown_terms, vec![b"Bf:x".to_vec()]);
            assert_eq!(s.line_number, Some(12));
            assert_eq!(s.current_feed, Some(dec(500.0)));
        }
        other => panic!("unexpected {:?}", other),
    }
    // Hold needs its code.
    assert!(matches!(parse_grbl_line("<Hold|MPos:0,0,0>"), GrblMessage::Unrecognized(_)));
}
