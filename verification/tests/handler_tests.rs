use cnc_control::handler::{ImmediateMessage, ImmediateOutcome, JobOutcome, Message, StandardHandler};
use cnc_control::machine::{ImmediateRequest, WriteRequest};

fn data_of(w: Option<WriteRequest>) -> Option<Vec<u8>> {
    match w {
        Some(WriteRequest::Plain { data, .. }) => Some(data),
        Some(WriteRequest::Probe { data, .. }) => Some(data),
        None => None,
    }
}

#[test]
fn state_requests_queue_until_full() {
    let mut h = StandardHandler::new();
    for t in 0..4 {
        assert!(h.immediate_open());
        assert_eq!(h.on_immediate(ImmediateMessage::GetState(t)), ImmediateOutcome::Queued);
    }
    assert!(!h.immediate_open());
    assert_eq!(h.next_immediate_request(), Some(ImmediateRequest::Status { result: 0 }));
    assert!(h.immediate_open());
}

#[test]
fn one_job_at_a_time() {
    let mut h = StandardHandler::new();
    assert!(!h.job_open());
    assert_eq!(h.on_immediate(ImmediateMessage::InitiateJob(1)), ImmediateOutcome::JobStarted(1));
    assert!(h.job_open());
    assert_eq!(h.on_immediate(ImmediateMessage::InitiateJob(2)), ImmediateOutcome::JobRefused(2));
    assert!(matches!(h.on_job(None), JobOutcome::Finished));
    assert!(!h.job_open());
    assert_eq!(h.on_immediate(ImmediateMessage::InitiateJob(3)), ImmediateOutcome::JobStarted(3));
}

#[test]
fn job_lines_come_out_in_order_and_stop_drops_them() {
    let mut h = StandardHandler::new();
    h.on_immediate(ImmediateMessage::InitiateJob(1));
    for i in 0..3u8 {
        let data = vec![b'0' + i];
        assert!(matches!(
            h.on_job(Some(Message::Write(WriteRequest::Plain { data, result: i as u64 }))),
            JobOutcome::Queued
        ));
    }
    assert_eq!(data_of(h.next_write_request()), Some(b"0".to_vec()));
    h.on_job(Some(Message::Write(WriteRequest::Plain { data: b"3".to_vec(), result: 3 })));
    h.on_job(Some(Message::Write(WriteRequest::Plain { data: b"4".to_vec(), result: 4 })));
    // Four lines wait: the job is not heard until one leaves.
    assert!(!h.job_open());
    assert_eq!(data_of(h.next_write_request()), Some(b"1".to_vec()));
    assert!(h.job_open());
    assert_eq!(h.on_immediate(ImmediateMessage::Stop), ImmediateOutcome::Queued);
    assert!(h.next_write_request().is_none());
    assert_eq!(h.next_immediate_request(), Some(ImmediateRequest::FeedHold));
    assert!(!h.job_open());
}

#[test]
fn job_status_follows_the_job() {
    let mut h = StandardHandler::new();
    h.on_immediate(ImmediateMessage::InitiateJob(1));
    assert!(matches!(h.on_job(Some(Message::SetStatus("At line 1/3".to_string()))), JobOutcome::StatusChanged));
    assert_eq!(h.job_status(), &Some("At line 1/3".to_string()));
    match h.on_job(Some(Message::Comment("hello".to_string()))) {
        JobOutcome::Comment(c) => assert_eq!(c, "hello"),
        _ => panic!("expected a comment"),
    }
    assert_eq!(h.on_immediate(ImmediateMessage::Reset), ImmediateOutcome::Queued);
    assert_eq!(h.job_status(), &None);
    assert_eq!(h.next_immediate_request(), Some(ImmediateRequest::Reset));
    assert_eq!(h.on_immediate(ImmediateMessage::GetJobStatus(5)), ImmediateOutcome::SendJobStatus(5));
}
