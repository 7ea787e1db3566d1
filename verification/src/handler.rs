//! The decisions of the standard request handler: which requests from users
//! and from the running job are queued for the machine, when the queues stop
//! taking more, and what stopping or resetting does to the job.
//!
//! Tickets (numbers chosen by the caller) stand for whoever waits for an
//! answer; the caller keeps them and delivers what the outcomes say.
use vstd::prelude::*;
use ringbuf::ring_buffer::RbBase;
use ringbuf::{LocalRb, Rb};
use std::mem::MaybeUninit;
use crate::machine::{immediate_bytes, ImmediateRequest, SpeedOverride, WriteRequest};

verus! {

/// A queue of at most four immediate requests, kept opaque: what it holds is
/// named by `queued_immediate` and changed only through the functions below.
#[verifier::external_body]
pub struct ImmediateRing {
    rb: LocalRb<ImmediateRequest, [MaybeUninit<ImmediateRequest>; 4]>,
}

/// The requests held, oldest first.
pub uninterp spec fn queued_immediate(r: ImmediateRing) -> Seq<ImmediateRequest>;

/// `LocalRb::default`: an empty ring buffer with room for four items.
#[verifier::external_body]
fn immediate_ring_new() -> (r: ImmediateRing)
    ensures
        queued_immediate(r) == Seq::<ImmediateRequest>::empty(),
{
    ImmediateRing { rb: LocalRb::default() }
}

/// `Rb::push`: appends the item at the back unless four are held; reports
/// whether it did.
#[verifier::external_body]
fn immediate_ring_push(r: &mut ImmediateRing, v: ImmediateRequest) -> (ok: bool)
    ensures
        ok == (queued_immediate(*old(r)).len() < 4),
        ok ==> queued_immediate(*final(r)) == queued_immediate(*old(r)).push(v),
        !ok ==> queued_immediate(*final(r)) == queued_immediate(*old(r)),
{
    r.rb.push(v).is_ok()
}

/// `Rb::pop`: removes and returns the oldest item, if any.
#[verifier::external_body]
fn immediate_ring_pop(r: &mut ImmediateRing) -> (v: Option<ImmediateRequest>)
    ensures
        queued_immediate(*old(r)).len() == 0 ==> v is None && queued_immediate(*final(r))
            == queued_immediate(*old(r)),
        queued_immediate(*old(r)).len() > 0 ==> v == Some(queued_immediate(*old(r))[0])
            && queued_immediate(*final(r)) == queued_immediate(*old(r)).drop_first(),
{
    r.rb.pop()
}

/// `RbBase::is_full`: whether no place is vacant among the four.
#[verifier::external_body]
fn immediate_ring_is_full(r: &ImmediateRing) -> (b: bool)
    ensures
        b == (queued_immediate(*r).len() >= 4),
{
    r.rb.is_full()
}

/// A queue of at most four line requests, kept opaque like [`ImmediateRing`].
#[verifier::external_body]
pub struct WriteRing {
    rb: LocalRb<WriteRequest, [MaybeUninit<WriteRequest>; 4]>,
}

/// The requests held, oldest first.
pub uninterp spec fn queued_writes(r: WriteRing) -> Seq<WriteRequest>;

/// `LocalRb::default`: an empty ring buffer with room for four items.
#[verifier::external_body]
fn write_ring_new() -> (r: WriteRing)
    ensures
        queued_writes(r) == Seq::<WriteRequest>::empty(),
{
    WriteRing { rb: LocalRb::default() }
}

/// `Rb::push`: appends the item at the back unless four are held; hands the
/// item back when it could not be appended.
#[verifier::external_body]
fn write_ring_push(r: &mut WriteRing, v: WriteRequest) -> (back: Option<WriteRequest>)
    ensures
        queued_writes(*old(r)).len() < 4 ==> back is None && queued_writes(*final(r))
            == queued_writes(*old(r)).push(v),
        queued_writes(*old(r)).len() >= 4 ==> back == Some(v) && queued_writes(*final(r))
            == queued_writes(*old(r)),
{
    r.rb.push(v).err()
}

/// `Rb::pop`: removes and returns the oldest item, if any.
#[verifier::external_body]
fn write_ring_pop(r: &mut WriteRing) -> (v: Option<WriteRequest>)
    ensures
        queued_writes(*old(r)).len() == 0 ==> v is None && queued_writes(*final(r))
            == queued_writes(*old(r)),
        queued_writes(*old(r)).len() > 0 ==> v == Some(queued_writes(*old(r))[0])
            && queued_writes(*final(r)) == queued_writes(*old(r)).drop_first(),
{
    r.rb.pop()
}

/// `RbBase::is_full`: whether no place is vacant among the four.
#[verifier::external_body]
fn write_ring_is_full(r: &WriteRing) -> (b: bool)
    ensures
        b == (queued_writes(*r).len() >= 4),
{
    r.rb.is_full()
}

/// `Rb::clear`: removes every item.
#[verifier::external_body]
fn write_ring_clear(r: &mut WriteRing)
    ensures
        queued_writes(*final(r)) == Seq::<WriteRequest>::empty(),
{
    r.rb.clear();
}

/// A request from a user of the machine.
#[derive(Debug, Clone, Copy, PartialEq, Eq, Structural)]
pub enum ImmediateMessage {
    GetState(u64),
    GetJobStatus(u64),
    Pause,
    Resume,
    Stop,
    Reset,
    InitiateJob(u64),
    OverrideSpeed(SpeedOverride),
}

/// A request from the running job.
#[derive(Debug)]
pub enum Message {
    GetState(u64),
    Write(WriteRequest),
    Comment(String),
    SetStatus(String),
}

/// The content of a request of the job.
pub enum JobMessageModel {
    GetState(u64),
    Write(WriteRequest),
    Comment(Seq<char>),
    SetStatus(Seq<char>),
}

impl View for Message {
    type V = JobMessageModel;

    open spec fn view(&self) -> JobMessageModel {
        match self {
            Message::GetState(t) => JobMessageModel::GetState(*t),
            Message::Write(w) => JobMessageModel::Write(*w),
            Message::Comment(c) => JobMessageModel::Comment(c@),
            Message::SetStatus(s) => JobMessageModel::SetStatus(s@),
        }
    }
}

/// What the caller does after a user request.
#[derive(Debug, Clone, Copy, PartialEq, Eq, Structural)]
pub enum ImmediateOutcome {
    /// Something was queued for the machine.
    Queued,
    /// Answer the ticket with a way to follow the job's status.
    SendJobStatus(u64),
    /// A job starts: answer the ticket with its handle.
    JobStarted(u64),
    /// A job is already running: answer the ticket with nothing.
    JobRefused(u64),
    /// The users hung up.
    Nothing,
}

/// What the caller does after a request of the job.
#[derive(Debug)]
pub enum JobOutcome {
    Queued,
    /// Log the comment.
    Comment(String),
    /// The job's status changed; publish it.
    StatusChanged,
    /// The job hung up: it is over.
    Finished,
}

pub struct StandardHandler {
    waiting_writes: WriteRing,
    waiting_immediate: ImmediateRing,
    job_active: bool,
    job_status: Option<String>,
}

pub struct HandlerModel {
    pub waiting_writes: Seq<WriteRequest>,
    pub waiting_immediate: Seq<ImmediateRequest>,
    pub job_active: bool,
    pub job_status: Option<Seq<char>>,
}

impl View for StandardHandler {
    type V = HandlerModel;

    closed spec fn view(&self) -> HandlerModel {
        HandlerModel {
            waiting_writes: queued_writes(self.waiting_writes),
            waiting_immediate: queued_immediate(self.waiting_immediate),
            job_active: self.job_active,
            job_status: match &self.job_status {
                Some(s) => Some(s@),
                None => None,
            },
        }
    }
}

impl HandlerModel {
    /// Neither queue holds more than four requests.
    pub open spec fn wf(self) -> bool {
        self.waiting_writes.len() <= 4 && self.waiting_immediate.len() <= 4
    }

    /// A user request can be taken: the immediate queue has room.
    pub open spec fn immediate_open(self) -> bool {
        self.waiting_immediate.len() < 4
    }

    /// A request of the job can be taken: a job runs and both queues have room.
    pub open spec fn job_open(self) -> bool {
        self.job_active && self.waiting_writes.len() < 4 && self.waiting_immediate.len() < 4
    }
}

/// A handler that has taken nothing yet.
pub open spec fn initial_handler() -> HandlerModel {
    HandlerModel {
        waiting_writes: Seq::empty(),
        waiting_immediate: Seq::empty(),
        job_active: false,
        job_status: None,
    }
}

/// The handler after a user request: state requests, pauses, resumptions
/// and speed overrides queue the matching machine request; stopping drops
/// the job and its queued lines and holds the feed; resetting drops the job
/// and its queued lines and resets the machine; a job is started only when
/// none runs.
pub open spec fn immediate_next(h: HandlerModel, m: ImmediateMessage) -> HandlerModel {
    match m {
        ImmediateMessage::GetState(t) => HandlerModel {
            waiting_immediate: h.waiting_immediate.push(ImmediateRequest::Status { result: t }),
            ..h
        },
        ImmediateMessage::GetJobStatus(_) => h,
        ImmediateMessage::Pause => HandlerModel {
            waiting_immediate: h.waiting_immediate.push(ImmediateRequest::FeedHold),
            ..h
        },
        ImmediateMessage::Resume => HandlerModel {
            waiting_immediate: h.waiting_immediate.push(ImmediateRequest::FeedResume),
            ..h
        },
        ImmediateMessage::Stop => HandlerModel {
            waiting_writes: Seq::empty(),
            waiting_immediate: h.waiting_immediate.push(ImmediateRequest::FeedHold),
            job_active: false,
            job_status: None,
        },
        ImmediateMessage::Reset => HandlerModel {
            waiting_writes: Seq::empty(),
            waiting_immediate: h.waiting_immediate.push(ImmediateRequest::Reset),
            job_active: false,
            job_status: None,
        },
        ImmediateMessage::OverrideSpeed(o) => HandlerModel {
            waiting_immediate: h.waiting_immediate.push(ImmediateRequest::OverrideSpeed(o)),
            ..h
        },
        ImmediateMessage::InitiateJob(_) => HandlerModel { job_active: true, ..h },
    }
}

/// What the caller is told to do after a user request.
pub open spec fn immediate_outcome(h: HandlerModel, m: ImmediateMessage) -> ImmediateOutcome {
    match m {
        ImmediateMessage::GetJobStatus(t) => ImmediateOutcome::SendJobStatus(t),
        ImmediateMessage::InitiateJob(t) => if h.job_active {
            ImmediateOutcome::JobRefused(t)
        } else {
            ImmediateOutcome::JobStarted(t)
        },
        _ => ImmediateOutcome::Queued,
    }
}

/// The handler after a request of the job, or after the job hung up (`None`).
pub open spec fn job_next(h: HandlerModel, m: Option<JobMessageModel>) -> HandlerModel {
    match m {
        Some(JobMessageModel::GetState(t)) => HandlerModel {
            waiting_immediate: h.waiting_immediate.push(ImmediateRequest::Status { result: t }),
            ..h
        },
        Some(JobMessageModel::Write(w)) => HandlerModel {
            waiting_writes: h.waiting_writes.push(w),
            ..h
        },
        Some(JobMessageModel::Comment(_)) => h,
        Some(JobMessageModel::SetStatus(s)) => HandlerModel { job_status: Some(s), ..h },
        None => HandlerModel { job_active: false, job_status: None, ..h },
    }
}

impl StandardHandler {
    pub fn new() -> (h: Self)
        ensures
            h@.wf(),
            h@ == initial_handler(),
    {
        StandardHandler {
            waiting_writes: write_ring_new(),
            waiting_immediate: immediate_ring_new(),
            job_active: false,
            job_status: None,
        }
    }

    /// The job's last reported status, if a job reported one.
    pub fn job_status(&self) -> (s: &Option<String>)
        ensures
            match s {
                Some(t) => self@.job_status == Some(t@),
                None => self@.job_status is None,
            },
    {
        &self.job_status
    }

    /// Whether a user request can be taken now.
    pub fn immediate_open(&self) -> (b: bool)
        requires
            self@.wf(),
        ensures
            b == self@.immediate_open(),
    {
        !immediate_ring_is_full(&self.waiting_immediate)
    }

    /// Whether a request of the job can be taken now.
    pub fn job_open(&self) -> (b: bool)
        requires
            self@.wf(),
        ensures
            b == self@.job_open(),
    {
        self.job_active && !write_ring_is_full(&self.waiting_writes) && !immediate_ring_is_full(
            &self.waiting_immediate,
        )
    }

    fn queue_immediate(&mut self, request: ImmediateRequest)
        requires
            old(self)@.wf(),
            old(self)@.immediate_open(),
        ensures
            final(self)@ == (HandlerModel {
                waiting_immediate: old(self)@.waiting_immediate.push(request),
                ..old(self)@
            }),
    {
        immediate_ring_push(&mut self.waiting_immediate, request);
    }

    fn stop_job(&mut self)
        ensures
            final(self)@ == (HandlerModel {
                waiting_writes: Seq::empty(),
                job_active: false,
                job_status: None,
                ..old(self)@
            }),
    {
        write_ring_clear(&mut self.waiting_writes);
        self.job_status = None;
        self.job_active = false;
    }

    /// Takes a user request. State requests, pauses, resumptions and speed
    /// overrides queue the matching machine request; stopping drops the job and its queued
    /// lines and holds the feed; resetting drops the job and its queued lines
    /// and resets the machine; a job is started only when none runs.
    pub fn on_immediate(&mut self, message: ImmediateMessage) -> (r: ImmediateOutcome)
        requires
            old(self)@.wf(),
            old(self)@.immediate_open(),
        ensures
            final(self)@.wf(),
            final(self)@ == immediate_next(old(self)@, message),
            r == immediate_outcome(old(self)@, message),
    {
        match message {
            ImmediateMessage::GetState(t) => {
                self.queue_immediate(ImmediateRequest::Status { result: t });
                ImmediateOutcome::Queued
            },
            ImmediateMessage::GetJobStatus(t) => ImmediateOutcome::SendJobStatus(t),
            ImmediateMessage::Pause => {
                self.queue_immediate(ImmediateRequest::FeedHold);
                ImmediateOutcome::Queued
            },
            ImmediateMessage::Resume => {
                self.queue_immediate(ImmediateRequest::FeedResume);
                ImmediateOutcome::Queued
            },
            ImmediateMessage::Stop => {
                self.stop_job();
                self.queue_immediate(ImmediateRequest::FeedHold);
                ImmediateOutcome::Queued
            },
            ImmediateMessage::Reset => {
                self.stop_job();
                self.queue_immediate(ImmediateRequest::Reset);
                ImmediateOutcome::Queued
            },
            ImmediateMessage::OverrideSpeed(o) => {
                self.queue_immediate(ImmediateRequest::OverrideSpeed(o));
                ImmediateOutcome::Queued
            },
            ImmediateMessage::InitiateJob(t) => {
                if self.job_active {
                    ImmediateOutcome::JobRefused(t)
                } else {
                    self.job_active = true;
                    ImmediateOutcome::JobStarted(t)
                }
            },
        }
    }

    /// Takes a request of the running job, or its hanging up (`None`).
    pub fn on_job(&mut self, message: Option<Message>) -> (r: JobOutcome)
        requires
            old(self)@.wf(),
            old(self)@.job_open(),
        ensures
            final(self)@.wf(),
            final(self)@ == job_next(
                old(self)@,
                match message {
                    Some(m) => Some(m@),
                    None => None,
                },
            ),
            match message {
                Some(Message::GetState(_)) => r is Queued,
                Some(Message::Write(_)) => r is Queued,
                Some(Message::Comment(c)) => r matches JobOutcome::Comment(d) && d@ == c@,
                Some(Message::SetStatus(_)) => r is StatusChanged,
                None => r is Finished,
            },
    {
        match message {
            Some(Message::GetState(t)) => {
                self.queue_immediate(ImmediateRequest::Status { result: t });
                JobOutcome::Queued
            },
            Some(Message::Write(w)) => {
                let back = write_ring_push(&mut self.waiting_writes, w);
                JobOutcome::Queued
            },
            Some(Message::Comment(c)) => JobOutcome::Comment(c),
            Some(Message::SetStatus(s)) => {
                self.job_status = Some(s);
                JobOutcome::StatusChanged
            },
            None => {
                self.job_status = None;
                self.job_active = false;
                JobOutcome::Finished
            },
        }
    }

    /// The oldest queued line request, if any.
    pub fn next_write_request(&mut self) -> (r: Option<WriteRequest>)
        requires
            old(self)@.wf(),
        ensures
            final(self)@.wf(),
            old(self)@.waiting_writes.len() == 0 ==> r is None && final(self)@ == old(self)@,
            old(self)@.waiting_writes.len() > 0 ==> r == Some(old(self)@.waiting_writes[0])
                && final(self)@ == (HandlerModel {
                waiting_writes: old(self)@.waiting_writes.drop_first(),
                ..old(self)@
            }),
    {
        write_ring_pop(&mut self.waiting_writes)
    }

    /// The oldest queued immediate request, if any.
    pub fn next_immediate_request(&mut self) -> (r: Option<ImmediateRequest>)
        requires
            old(self)@.wf(),
        ensures
            final(self)@.wf(),
            old(self)@.waiting_immediate.len() == 0 ==> r is None && final(self)@ == old(self)@,
            old(self)@.waiting_immediate.len() > 0 ==> r == Some(old(self)@.waiting_immediate[0])
                && final(self)@ == (HandlerModel {
                waiting_immediate: old(self)@.waiting_immediate.drop_first(),
                ..old(self)@
            }),
    {
        immediate_ring_pop(&mut self.waiting_immediate)
    }
}

/// One thing that happens to the handler.
pub enum HandlerEvent {
    /// A user request.
    User(ImmediateMessage),
    /// A request of the job, or its hanging up (`None`).
    Job(Option<JobMessageModel>),
    /// The machine takes the oldest queued line request.
    TakeWrite,
    /// The machine takes the oldest queued immediate request.
    TakeImmediate,
}

/// Whether the handler takes `e` now (the callers' guards).
pub open spec fn admitted(h: HandlerModel, e: HandlerEvent) -> bool {
    match e {
        HandlerEvent::User(_) => h.immediate_open(),
        HandlerEvent::Job(_) => h.job_open(),
        _ => true,
    }
}

/// The handler after `e`.
pub open spec fn event_next(h: HandlerModel, e: HandlerEvent) -> HandlerModel {
    match e {
        HandlerEvent::User(m) => immediate_next(h, m),
        HandlerEvent::Job(m) => job_next(h, m),
        HandlerEvent::TakeWrite => if h.waiting_writes.len() > 0 {
            HandlerModel { waiting_writes: h.waiting_writes.drop_first(), ..h }
        } else {
            h
        },
        HandlerEvent::TakeImmediate => if h.waiting_immediate.len() > 0 {
            HandlerModel { waiting_immediate: h.waiting_immediate.drop_first(), ..h }
        } else {
            h
        },
    }
}

/// The handler after the events in turn, from a new one; `None` when one of
/// them would not have been taken.
pub open spec fn replay(events: Seq<HandlerEvent>) -> Option<HandlerModel>
    decreases events.len(),
{
    if events.len() == 0 {
        Some(initial_handler())
    } else {
        match replay(events.drop_last()) {
            Some(h) => if admitted(h, events.last()) {
                Some(event_next(h, events.last()))
            } else {
                None
            },
            None => None,
        }
    }
}

/// Whether a job is live after the events: one was started, and since then
/// it has not hung up and no Stop or Reset came.
pub open spec fn job_live(events: Seq<HandlerEvent>) -> bool
    decreases events.len(),
{
    if events.len() == 0 {
        false
    } else {
        match events.last() {
            HandlerEvent::User(ImmediateMessage::InitiateJob(_)) => true,
            HandlerEvent::User(ImmediateMessage::Stop) => false,
            HandlerEvent::User(ImmediateMessage::Reset) => false,
            HandlerEvent::Job(None) => false,
            _ => job_live(events.drop_last()),
        }
    }
}

/// Law: one job at a time. After any events the handler took, a job is
/// running exactly when one was started and has since neither hung up nor
/// been stopped or reset; a request to start a job is then refused, and
/// granted otherwise. Without a running job there is no job status, and
/// neither queue ever holds more than four requests.
pub proof fn law_one_job_at_a_time(events: Seq<HandlerEvent>, t: u64)
    requires
        replay(events) is Some,
    ensures
        replay(events)->0.wf(),
        replay(events)->0.job_active == job_live(events),
        !job_live(events) ==> replay(events)->0.job_status is None,
        immediate_outcome(replay(events)->0, ImmediateMessage::InitiateJob(t)) == if job_live(
            events,
        ) {
            ImmediateOutcome::JobRefused(t)
        } else {
            ImmediateOutcome::JobStarted(t)
        },
    decreases events.len(),
{
    if events.len() > 0 {
        law_one_job_at_a_time(events.drop_last(), t);
    }
}

/// Law: every user request that reaches the machine is queued behind what
/// was already waiting, as the request the machine acts on: a pause sends
/// the feed hold `!`, a resumption the cycle start `~`, a stop the feed hold
/// `!`, a reset Ctrl-X, a state request `?` answered to its own ticket, and a
/// speed override the byte of that override. The job's own state request
/// sends `?` as well.
pub proof fn law_requests_reach_the_machine(h: HandlerModel, m: ImmediateMessage, t: u64)
    ensures
        ({
            let q = immediate_next(h, m).waiting_immediate;
            match m {
                ImmediateMessage::GetJobStatus(_) => q == h.waiting_immediate,
                ImmediateMessage::InitiateJob(_) => q == h.waiting_immediate,
                _ => {
                    &&& q.len() == h.waiting_immediate.len() + 1
                    &&& q.drop_last() == h.waiting_immediate
                    &&& immediate_bytes(q.last()) == match m {
                        ImmediateMessage::Pause => seq![0x21u8],
                        ImmediateMessage::Resume => seq![0x7Eu8],
                        ImmediateMessage::Stop => seq![0x21u8],
                        ImmediateMessage::Reset => seq![0x18u8],
                        ImmediateMessage::GetState(_) => seq![0x3Fu8],
                        ImmediateMessage::OverrideSpeed(o) => immediate_bytes(
                            ImmediateRequest::OverrideSpeed(o),
                        ),
                        _ => Seq::empty(),
                    }
                    &&& m matches ImmediateMessage::GetState(u) ==> q.last()
                        == ImmediateRequest::Status { result: u }
                    &&& m matches ImmediateMessage::OverrideSpeed(o) ==> q.last()
                        == ImmediateRequest::OverrideSpeed(o)
                },
            }
        }),
        job_next(h, Some(JobMessageModel::GetState(t))).waiting_immediate == h.waiting_immediate.push(
            ImmediateRequest::Status { result: t },
        ),
        immediate_bytes(ImmediateRequest::Status { result: t }) == seq![0x3Fu8],
{
    let q = immediate_next(h, m).waiting_immediate;
    match m {
        ImmediateMessage::GetJobStatus(_) => {},
        ImmediateMessage::InitiateJob(_) => {},
        _ => {
            assert(q.drop_last() =~= h.waiting_immediate);
        },
    }
}

/// Law: what the job's requests do. A line is queued after the lines
/// already waiting; a comment changes nothing; a status becomes the job's
/// status; when the job hangs up it is over and has no status, while the
/// lines it queued still go out. A stop or a reset drops the queued lines
/// and the status and ends the job.
pub proof fn law_job_requests(h: HandlerModel, w: WriteRequest, c: Seq<char>, st: Seq<char>, m: ImmediateMessage)
    ensures
        job_next(h, Some(JobMessageModel::Write(w))).waiting_writes.len() == h.waiting_writes.len()
            + 1,
        job_next(h, Some(JobMessageModel::Write(w))).waiting_writes.last() == w,
        job_next(h, Some(JobMessageModel::Write(w))).waiting_writes.drop_last() == h.waiting_writes,
        job_next(h, Some(JobMessageModel::Write(w))).waiting_immediate == h.waiting_immediate,
        job_next(h, Some(JobMessageModel::Write(w))).job_active == h.job_active,
        job_next(h, Some(JobMessageModel::Comment(c))) == h,
        job_next(h, Some(JobMessageModel::SetStatus(st))).job_status == Some(st),
        job_next(h, Some(JobMessageModel::SetStatus(st))).waiting_writes == h.waiting_writes,
        !job_next(h, None).job_active,
        job_next(h, None).job_status is None,
        job_next(h, None).waiting_writes == h.waiting_writes,
        (m == ImmediateMessage::Stop || m == ImmediateMessage::Reset) ==> {
            &&& immediate_next(h, m).waiting_writes.len() == 0
            &&& !immediate_next(h, m).job_active
            &&& immediate_next(h, m).job_status is None
        },
        (m != ImmediateMessage::Stop && m != ImmediateMessage::Reset) ==> immediate_next(
            h,
            m,
        ).waiting_writes == h.waiting_writes,
{
    assert(job_next(h, Some(JobMessageModel::Write(w))).waiting_writes.drop_last()
        =~= h.waiting_writes);
}

} // verus!
