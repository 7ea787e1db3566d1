//! The controller connection's bookkeeping: which requests wait for which
//! replies, what to write when, and what each line received answers.
//!
//! Requests carry tickets, numbers chosen by the caller that stand for
//! whoever waits for the answer; every reply names the tickets it answers.
use vstd::prelude::*;
use vstd::string::StringSliceAdditionalSpecFns;
use std::collections::VecDeque;
use crate::grbl_messages::{
    GrblMessage, GrblPosition, GrblStateInfo, GrblStatus, MessageModel, PositionModel,
    ProbeEvent, RealtimeCommand, StatusModel, realtime_code,
};
use crate::grbl_parser::{grbl_line, parse_grbl_line};
use crate::machine_writer::{fits, line_length, BufferCountingWriter, WriterModel};
use crate::number::{can_combine, sum_decimal, Decimal};

verus! {

#[derive(Clone, Copy, Debug, PartialEq, Eq, Structural)]
pub enum LineError {
    Grbl(u64),
    Reset,
}

#[derive(Clone, Copy, Debug, PartialEq, Eq, Structural)]
pub enum ProbeError {
    Grbl(u64),
    Reset,
}

/// A line to write, with the ticket of whoever waits for its `ok` (and, for
/// a probing line, of whoever waits for the probe's result).
#[derive(Debug)]
pub enum WriteRequest {
    Plain { data: Vec<u8>, result: u64 },
    Probe { data: Vec<u8>, result_line: u64, result: u64 },
}

#[derive(Clone, Copy, Debug, PartialEq, Eq, Structural)]
pub enum SpeedOverride {
    FeedReset,
    FeedIncrease10,
    FeedDecrease10,
    FeedIncrease1,
    FeedDecrease1,
    RapidReset,
    RapidHalf,
    RapidQuarter,
    SpindleReset,
    SpindleIncrease10,
    SpindleDecrease10,
    SpindleIncrease1,
    SpindleDecrease1,
}

/// A request that bypasses the line queue.
#[derive(Clone, Copy, Debug, PartialEq, Eq, Structural)]
pub enum ImmediateRequest {
    Status { result: u64 },
    FeedHold,
    FeedResume,
    Reset,
    OverrideSpeed(SpeedOverride),
}

/// Something worth telling whoever watches the connection.
#[derive(Clone, Copy, Debug, PartialEq, Eq, Structural)]
pub enum Warning {
    ProbeWithoutListener,
    ErrorReceived(u64),
    ErrorWithoutListener,
    AlarmReceived(u64),
    OkWithoutListener,
    UnexpectedGreeting,
    UnrecognizedLine,
}

/// What to do after a line was received, in this order: write `write`
/// (a held-back line that now fits), report the alarm, emit the warnings,
/// then deliver the answers (a probe's result goes to the oldest waiting
/// probe).
pub struct Reply {
    pub write: Option<Vec<u8>>,
    pub alarm: Option<u64>,
    pub warnings: Vec<Warning>,
    pub line_result: Option<(u64, LineError)>,
    pub line_ok: Option<u64>,
    pub status_result: Option<(VecDeque<u64>, GrblStateInfo)>,
    pub probe_result: Option<(u64, ProbeEvent)>,
}

/// What to do after a reset: answer each waiting line and probe with
/// `Reset`, and ask for the status again when somebody still waits for one.
pub struct ResetReply {
    pub failed_lines: VecDeque<u64>,
    pub failed_probes: VecDeque<u64>,
    pub resend_status: Option<Vec<u8>>,
}

/// The connection's bookkeeping.
pub struct MachineThread {
    pub writer: BufferCountingWriter,
    pub waiting_ok: VecDeque<u64>,
    pub waiting_probe: VecDeque<u64>,
    pub waiting_status: VecDeque<u64>,
    pub work_coordinate_offset: Option<Vec<Decimal>>,
}

pub struct MachineModel {
    pub writer: WriterModel,
    pub waiting_ok: Seq<u64>,
    pub waiting_probe: Seq<u64>,
    pub waiting_status: Seq<u64>,
    pub work_coordinate_offset: Option<Seq<Decimal>>,
}

impl View for MachineThread {
    type V = MachineModel;

    open spec fn view(&self) -> MachineModel {
        MachineModel {
            writer: self.writer@,
            waiting_ok: self.waiting_ok@,
            waiting_probe: self.waiting_probe@,
            waiting_status: self.waiting_status@,
            work_coordinate_offset: match &self.work_coordinate_offset {
                Some(v) => Some(v@),
                None => None,
            },
        }
    }
}

/// A position in work coordinates moved back to machine coordinates.
pub open spec fn offset_position(p: Seq<Decimal>, w: Seq<Decimal>) -> Seq<Decimal> {
    Seq::new(p.len(), |i: int| sum_decimal(p[i], w[i]))
}

/// The offset in force once a report is taken into account.
pub open spec fn offset_after(m: MachineModel, st: StatusModel) -> Option<Seq<Decimal>> {
    match st.work_coordinate_offset {
        Some(w) => Some(w),
        None => m.work_coordinate_offset,
    }
}

/// A status report can be turned into machine coordinates: an offset is
/// known, and a work position has one value per offset axis, each close
/// enough in size to add exactly.
pub open spec fn status_usable(m: MachineModel, st: StatusModel) -> bool {
    match offset_after(m, st) {
        Some(w) => match st.machine_position {
            PositionModel::Machine(_) => true,
            PositionModel::Work(p) => p.len() == w.len() && forall|i: int|
                0 <= i < p.len() ==> can_combine(#[trigger] p[i], w[i]),
        },
        None => false,
    }
}

/// The machine position a report gives.
pub open spec fn machine_position_of(m: MachineModel, st: StatusModel) -> Seq<Decimal> {
    match st.machine_position {
        PositionModel::Machine(p) => p,
        PositionModel::Work(p) => offset_position(p, offset_after(m, st).unwrap()),
    }
}

/// The writer after the controller acknowledged a line, and what that lets
/// through.
pub open spec fn acknowledged(w: WriterModel) -> (WriterModel, Option<Seq<u8>>) {
    let freed = WriterModel {
        waiting_size: (w.waiting_size - w.waiting_lines[0]) as u16,
        waiting_lines: w.waiting_lines.drop_first(),
        ..w
    };
    match w.next_line {
        Some(next) => if fits(freed, line_length(next)) {
            (WriterModel { next_line: None, ..freed }.written(line_length(next)), Some(next))
        } else {
            (freed, None)
        },
        None => (freed, None),
    }
}

/// The received line can be taken in: an `ok` or an error answers a written
/// line, and a status report can be turned into machine coordinates.
pub open spec fn receivable(m: MachineModel, msg: MessageModel) -> bool {
    match msg {
        MessageModel::GrblOk => m.writer.waiting_lines.len() > 0,
        MessageModel::GrblError(_) => m.writer.waiting_lines.len() > 0,
        MessageModel::StatusEvent(st) => status_usable(m, st),
        _ => true,
    }
}

pub open spec fn opt_bytes(o: Option<Vec<u8>>) -> Option<Seq<u8>> {
    match o {
        Some(v) => Some(v@),
        None => None,
    }
}

impl MachineThread {
    pub open spec fn wf(&self) -> bool {
        self.writer@.wf()
    }

    /// A fresh connection whose writer lets `max_waiting_size` bytes wait.
    pub fn new(max_waiting_size: u16) -> (t: Self)
        ensures
            t.wf(),
            t@.writer.max_waiting_size == max_waiting_size,
            t@.writer.waiting_lines.len() == 0,
            t@.writer.next_line is None,
            t@.waiting_ok.len() == 0,
            t@.waiting_probe.len() == 0,
            t@.waiting_status.len() == 0,
            t@.work_coordinate_offset is None,
    {
        MachineThread {
            writer: BufferCountingWriter::new(max_waiting_size),
            waiting_ok: VecDeque::new(),
            waiting_probe: VecDeque::new(),
            waiting_status: VecDeque::new(),
            work_coordinate_offset: None,
        }
    }

    /// Whether `receive_line` may be called with `line`.
    pub fn can_receive(&self, line: &str) -> (b: bool)
        requires
            self.wf(),
        ensures
            b == receivable(self@, grbl_line(line.spec_bytes())),
    {
        let msg = parse_grbl_line(line);
        match &msg {
            GrblMessage::GrblOk => self.writer.has_waiting_line(),
            GrblMessage::GrblError(_) => self.writer.has_waiting_line(),
            GrblMessage::StatusEvent(st) => self.status_is_usable(st),
            _ => true,
        }
    }

    fn status_is_usable(&self, st: &GrblStatus) -> (b: bool)
        ensures
            b == status_usable(self@, st@),
    {
        let w = match &st.work_coordinate_offset {
            Some(w) => w,
            None => match &self.work_coordinate_offset {
                Some(w) => w,
                None => {
                    return false;
                },
            },
        };
        assert(offset_after(self@, st@) == Some(w@));
        match &st.machine_position {
            GrblPosition::Machine(_) => true,
            GrblPosition::Work(p) => {
                if p.len() != w.len() {
                    return false;
                }
                let mut i: usize = 0;
                while i < p.len()
                    invariant
                        i <= p.len(),
                        p.len() == w.len(),
                        offset_after(self@, st@) == Some(w@),
                        st@.machine_position == PositionModel::Work(p@),
                        forall|j: int| 0 <= j < i ==> can_combine(#[trigger] p@[j], w@[j]),
                    decreases p.len() - i,
                {
                    if !crate::number::combinable(p[i], w[i]) {
                        return false;
                    }
                    i = i + 1;
                }
                true
            },
        }
    }

    fn machine_position(&self, st: &GrblStatus, w: &Vec<Decimal>) -> (r: Vec<Decimal>)
        requires
            status_usable(self@, st@),
            offset_after(self@, st@) == Some(w@),
        ensures
            r@ == machine_position_of(self@, st@),
    {
        match &st.machine_position {
            GrblPosition::Machine(p) => p.clone(),
            GrblPosition::Work(p) => {
                let mut r: Vec<Decimal> = Vec::new();
                let mut i: usize = 0;
                while i < p.len()
                    invariant
                        i <= p.len(),
                        p.len() == w.len(),
                        r@.len() == i,
                        forall|j: int| 0 <= j < p.len() ==> can_combine(#[trigger] p@[j], w@[j]),
                        forall|j: int| 0 <= j < i ==> r@[j] == sum_decimal(p@[j], w@[j]),
                    decreases p.len() - i,
                {
                    assert(can_combine(p@[i as int], w@[i as int]));
                    r.push(p[i].add(w[i]));
                    i = i + 1;
                }
                assert(r@ =~= offset_position(p@, w@));
                r
            },
        }
    }

    /// Takes in a line received from the controller.
    ///
    /// A status report updates the work offset (when it carries one) and
    /// answers every waiting status request, in machine coordinates. An
    /// `ok` or an error frees the oldest written line in the writer (which
    /// may let the held-back line through) and answers the oldest waiting
    /// line. An alarm is reported. Anything else is only warned about.
    pub fn receive_line(&mut self, line: &str) -> (r: Reply)
        requires
            old(self).wf(),
            receivable(old(self)@, grbl_line(line.spec_bytes())),
        ensures
            final(self).wf(),
            !(grbl_line(line.spec_bytes()) is ProbeEvent) ==> {
                &&& final(self)@.waiting_probe == old(self)@.waiting_probe
                &&& r.probe_result is None
            },
            match grbl_line(line.spec_bytes()) {
                MessageModel::ProbeEvent { success, position } => {
                    &&& final(self)@.writer == old(self)@.writer
                    &&& final(self)@.waiting_ok == old(self)@.waiting_ok
                    &&& final(self)@.waiting_status == old(self)@.waiting_status
                    &&& final(self)@.work_coordinate_offset == old(self)@.work_coordinate_offset
                    &&& r.write is None && r.alarm is None && r.line_result is None
                    &&& r.line_ok is None && r.status_result is None
                    &&& if old(self)@.waiting_probe.len() > 0 {
                        &&& r.probe_result matches Some((ticket, event)) && ticket == old(
                            self,
                        )@.waiting_probe[0] && event.success == success && event.position@
                            == position
                        &&& final(self)@.waiting_probe == old(self)@.waiting_probe.drop_first()
                        &&& r.warnings@.len() == 0
                    } else {
                        &&& r.probe_result is None
                        &&& final(self)@.waiting_probe == old(self)@.waiting_probe
                        &&& r.warnings@ == seq![Warning::ProbeWithoutListener]
                    }
                },
                MessageModel::StatusEvent(st) => {
                    &&& final(self)@.writer == old(self)@.writer
                    &&& final(self)@.waiting_ok == old(self)@.waiting_ok
                    &&& final(self)@.waiting_status.len() == 0
                    &&& final(self)@.work_coordinate_offset == offset_after(old(self)@, st)
                    &&& r.write is None && r.alarm is None && r.warnings@.len() == 0
                    &&& r.line_result is None && r.line_ok is None
                    &&& r.status_result matches Some((tickets, info)) && tickets@ == old(
                        self,
                    )@.waiting_status && info.state == st.state && info.machine_position@
                        == machine_position_of(old(self)@, st)
                        && Some(info.work_coordinate_offset@) == offset_after(old(self)@, st)
                },
                MessageModel::GrblOk => {
                    &&& final(self)@.writer == acknowledged(old(self)@.writer).0
                    &&& opt_bytes(r.write) == acknowledged(old(self)@.writer).1
                    &&& final(self)@.waiting_status == old(self)@.waiting_status
                    &&& final(self)@.work_coordinate_offset == old(self)@.work_coordinate_offset
                    &&& r.alarm is None && r.line_result is None && r.status_result is None
                    &&& if old(self)@.waiting_ok.len() > 0 {
                        &&& r.line_ok == Some(old(self)@.waiting_ok[0])
                        &&& final(self)@.waiting_ok == old(self)@.waiting_ok.drop_first()
                        &&& r.warnings@.len() == 0
                    } else {
                        &&& r.line_ok is None
                        &&& final(self)@.waiting_ok == old(self)@.waiting_ok
                        &&& r.warnings@ == seq![Warning::OkWithoutListener]
                    }
                },
                MessageModel::GrblError(code) => {
                    &&& final(self)@.writer == acknowledged(old(self)@.writer).0
                    &&& opt_bytes(r.write) == acknowledged(old(self)@.writer).1
                    &&& final(self)@.waiting_status == old(self)@.waiting_status
                    &&& final(self)@.work_coordinate_offset == old(self)@.work_coordinate_offset
                    &&& r.alarm is None && r.line_ok is None && r.status_result is None
                    &&& if old(self)@.waiting_ok.len() > 0 {
                        &&& r.line_result == Some((old(self)@.waiting_ok[0], LineError::Grbl(code)))
                        &&& final(self)@.waiting_ok == old(self)@.waiting_ok.drop_first()
                        &&& r.warnings@ == seq![Warning::ErrorReceived(code)]
                    } else {
                        &&& r.line_result is None
                        &&& final(self)@.waiting_ok == old(self)@.waiting_ok
                        &&& r.warnings@ == seq![
                            Warning::ErrorReceived(code),
                            Warning::ErrorWithoutListener,
                        ]
                    }
                },
                other => {
                    &&& final(self)@ == old(self)@
                    &&& r.write is None && r.line_result is None && r.line_ok is None
                    &&& r.status_result is None
                    &&& match other {
                        MessageModel::GrblAlarm(code) => r.alarm == Some(code) && r.warnings@
                            == seq![Warning::AlarmReceived(code)],
                        MessageModel::GrblGreeting => r.alarm is None && r.warnings@ == seq![
                            Warning::UnexpectedGreeting,
                        ],
                        MessageModel::Unrecognized(_) => r.alarm is None && r.warnings@ == seq![
                            Warning::UnrecognizedLine,
                        ],
                        _ => true,
                    }
                },
            },
    {
        let msg = parse_grbl_line(line);
        let mut warnings: Vec<Warning> = Vec::new();
        match msg {
            GrblMessage::ProbeEvent(event) => {
                let probe_result = match self.waiting_probe.pop_front() {
                    Some(ticket) => Some((ticket, event)),
                    None => {
                        warnings.push(Warning::ProbeWithoutListener);
                        None
                    },
                };
                Reply {
                    write: None,
                    alarm: None,
                    warnings,
                    line_result: None,
                    line_ok: None,
                    status_result: None,
                    probe_result,
                }
            },
            GrblMessage::StatusEvent(st) => {
                let ghost before = self@;
                let w = match &st.work_coordinate_offset {
                    Some(w) => w.clone(),
                    None => match &self.work_coordinate_offset {
                        Some(w) => w.clone(),
                        None => {
                            return Reply {
                                write: None,
                                alarm: None,
                                warnings,
                                line_result: None,
                                line_ok: None,
                                status_result: None,
                                probe_result: None,
                            };
                        },
                    },
                };
                let machine_position = self.machine_position(&st, &w);
                self.work_coordinate_offset = Some(w.clone());
                let mut tickets: VecDeque<u64> = VecDeque::new();
                std::mem::swap(&mut tickets, &mut self.waiting_status);
                let info = GrblStateInfo {
                    state: st.state,
                    machine_position,
                    work_coordinate_offset: w,
                };
                Reply {
                    write: None,
                    alarm: None,
                    warnings,
                    line_result: None,
                    line_ok: None,
                    status_result: Some((tickets, info)),
                    probe_result: None,
                }
            },
            GrblMessage::GrblError(index) => {
                let write = self.writer.pop_received_line();
                warnings.push(Warning::ErrorReceived(index));
                let line_result = match self.waiting_ok.pop_front() {
                    Some(ticket) => Some((ticket, LineError::Grbl(index))),
                    None => {
                        warnings.push(Warning::ErrorWithoutListener);
                        None
                    },
                };
                Reply {
                    write,
                    alarm: None,
                    warnings,
                    line_result,
                    line_ok: None,
                    status_result: None,
                    probe_result: None,
                }
            },
            GrblMessage::GrblAlarm(index) => {
                warnings.push(Warning::AlarmReceived(index));
                Reply {
                    write: None,
                    alarm: Some(index),
                    warnings,
                    line_result: None,
                    line_ok: None,
                    status_result: None,
                    probe_result: None,
                }
            },
            GrblMessage::GrblOk => {
                let write = self.writer.pop_received_line();
                let line_ok = self.waiting_ok.pop_front();
                if line_ok.is_none() {
                    warnings.push(Warning::OkWithoutListener);
                }
                Reply {
                    write,
                    alarm: None,
                    warnings,
                    line_result: None,
                    line_ok,
                    status_result: None,
                    probe_result: None,
                }
            },
            GrblMessage::GrblGreeting => {
                warnings.push(Warning::UnexpectedGreeting);
                Reply {
                    write: None,
                    alarm: None,
                    warnings,
                    line_result: None,
                    line_ok: None,
                    status_result: None,
                    probe_result: None,
                }
            },
            GrblMessage::Unrecognized(_) => {
                warnings.push(Warning::UnrecognizedLine);
                Reply {
                    write: None,
                    alarm: None,
                    warnings,
                    line_result: None,
                    line_ok: None,
                    status_result: None,
                    probe_result: None,
                }
            },
        }
    }

    /// Queues a line for the controller; returns the bytes to write now, if
    /// the line fits.
    pub fn plain_send(&mut self, request: WriteRequest) -> (r: Option<Vec<u8>>)
        requires
            old(self).wf(),
            old(self)@.writer.next_line is None,
        ensures
            final(self).wf(),
            final(self)@.waiting_status == old(self)@.waiting_status,
            final(self)@.work_coordinate_offset == old(self)@.work_coordinate_offset,
            match request {
                WriteRequest::Plain { data, result } => {
                    &&& final(self)@.waiting_ok == old(self)@.waiting_ok.push(result)
                    &&& final(self)@.waiting_probe == old(self)@.waiting_probe
                    &&& if fits(old(self)@.writer, line_length(data@)) {
                        opt_bytes(r) == Some(data@) && final(self)@.writer == old(
                            self,
                        )@.writer.written(line_length(data@))
                    } else {
                        r is None && final(self)@.writer == (WriterModel {
                            next_line: Some(data@),
                            ..old(self)@.writer
                        })
                    }
                },
                WriteRequest::Probe { data, result_line, result } => {
                    &&& final(self)@.waiting_ok == old(self)@.waiting_ok.push(result_line)
                    &&& final(self)@.waiting_probe == old(self)@.waiting_probe.push(result)
                    &&& if fits(old(self)@.writer, line_length(data@)) {
                        opt_bytes(r) == Some(data@) && final(self)@.writer == old(
                            self,
                        )@.writer.written(line_length(data@))
                    } else {
                        r is None && final(self)@.writer == (WriterModel {
                            next_line: Some(data@),
                            ..old(self)@.writer
                        })
                    }
                },
            },
    {
        match request {
            WriteRequest::Plain { data, result } => {
                let r = self.writer.enqueue_line(data);
                self.waiting_ok.push_back(result);
                r
            },
            WriteRequest::Probe { data, result_line, result } => {
                let r = self.writer.enqueue_line(data);
                self.waiting_ok.push_back(result_line);
                self.waiting_probe.push_back(result);
                r
            },
        }
    }

    /// The bytes to write at once for an immediate request; a status request
    /// is remembered until the next report answers it.
    pub fn immediate_send(&mut self, request: ImmediateRequest) -> (r: Vec<u8>)
        ensures
            r@ == immediate_bytes(request),
            final(self)@.writer == old(self)@.writer,
            final(self)@.waiting_ok == old(self)@.waiting_ok,
            final(self)@.waiting_probe == old(self)@.waiting_probe,
            final(self)@.work_coordinate_offset == old(self)@.work_coordinate_offset,
            match request {
                ImmediateRequest::Status { result } => r@ == seq![63u8]
                    && final(self)@.waiting_status == old(self)@.waiting_status.push(result),
                ImmediateRequest::FeedHold => r@ == seq![33u8] && final(self)@.waiting_status
                    == old(self)@.waiting_status,
                ImmediateRequest::FeedResume => r@ == seq![126u8] && final(self)@.waiting_status
                    == old(self)@.waiting_status,
                ImmediateRequest::Reset => r@ == seq![0x18u8] && final(self)@.waiting_status
                    == old(self)@.waiting_status,
                ImmediateRequest::OverrideSpeed(s) => r@ == seq![
                    realtime_code(override_command(s)),
                ] && final(self)@.waiting_status == old(self)@.waiting_status,
            },
    {
        match request {
            ImmediateRequest::Status { result } => {
                self.waiting_status.push_back(result);
                vec![63u8]
            },
            ImmediateRequest::FeedHold => vec![33u8],
            ImmediateRequest::FeedResume => vec![126u8],
            ImmediateRequest::Reset => vec![0x18u8],
            ImmediateRequest::OverrideSpeed(s) => vec![override_command_of(s).code()],
        }
    }

    /// Forgets what was written: the writer is cleared, every waiting line
    /// and probe is answered with `Reset`, and a status request still waiting
    /// is asked again.
    pub fn reset(&mut self) -> (r: ResetReply)
        requires
            old(self).wf(),
        ensures
            final(self).wf(),
            final(self)@.writer == (WriterModel {
                waiting_size: 0,
                waiting_lines: Seq::empty(),
                next_line: None,
                ..old(self)@.writer
            }),
            r.failed_lines@ == old(self)@.waiting_ok,
            r.failed_probes@ == old(self)@.waiting_probe,
            final(self)@.waiting_ok.len() == 0,
            final(self)@.waiting_probe.len() == 0,
            final(self)@.waiting_status == old(self)@.waiting_status,
            final(self)@.work_coordinate_offset == old(self)@.work_coordinate_offset,
            opt_bytes(r.resend_status) == (if old(self)@.waiting_status.len() > 0 {
                Some(seq![63u8])
            } else {
                None
            }),
    {
        self.writer.clear_waiting();
        let mut failed_lines: VecDeque<u64> = VecDeque::new();
        std::mem::swap(&mut failed_lines, &mut self.waiting_ok);
        let mut failed_probes: VecDeque<u64> = VecDeque::new();
        std::mem::swap(&mut failed_probes, &mut self.waiting_probe);
        let resend_status = if self.waiting_status.len() > 0 {
            Some(vec![63u8])
        } else {
            None
        };
        ResetReply { failed_lines, failed_probes, resend_status }
    }
}

/// The bytes written at once for an immediate request.
pub open spec fn immediate_bytes(request: ImmediateRequest) -> Seq<u8> {
    match request {
        ImmediateRequest::Status { .. } => seq![realtime_code(RealtimeCommand::StatusReport)],
        ImmediateRequest::FeedHold => seq![realtime_code(RealtimeCommand::FeedHold)],
        ImmediateRequest::FeedResume => seq![realtime_code(RealtimeCommand::CycleStart)],
        ImmediateRequest::Reset => seq![realtime_code(RealtimeCommand::Reset)],
        ImmediateRequest::OverrideSpeed(s) => seq![realtime_code(override_command(s))],
    }
}

/// The controller command for a speed override.
pub open spec fn override_command(s: SpeedOverride) -> RealtimeCommand {
    match s {
        SpeedOverride::FeedReset => RealtimeCommand::FeedOverrideReset,
        SpeedOverride::FeedIncrease10 => RealtimeCommand::FeedOverridePlusTen,
        SpeedOverride::FeedDecrease10 => RealtimeCommand::FeedOverrideMinusTen,
        SpeedOverride::FeedIncrease1 => RealtimeCommand::FeedOverridePlusOne,
        SpeedOverride::FeedDecrease1 => RealtimeCommand::FeedOvrerideMinusOne,
        SpeedOverride::RapidReset => RealtimeCommand::RapidOverrideReset,
        SpeedOverride::RapidHalf => RealtimeCommand::RapidOverrideHalf,
        SpeedOverride::RapidQuarter => RealtimeCommand::RapidOverrideQuarter,
        SpeedOverride::SpindleReset => RealtimeCommand::SpindleOverrideReset,
        SpeedOverride::SpindleIncrease10 => RealtimeCommand::SpindleOverridePlusTen,
        SpeedOverride::SpindleDecrease10 => RealtimeCommand::SpindleOverrideMinusTen,
        SpeedOverride::SpindleIncrease1 => RealtimeCommand::SpindleOverridePlusOne,
        SpeedOverride::SpindleDecrease1 => RealtimeCommand::SpindleOverrideMinusOne,
    }
}

pub fn override_command_of(s: SpeedOverride) -> (c: RealtimeCommand)
    ensures
        c == override_command(s),
{
    match s {
        SpeedOverride::FeedReset => RealtimeCommand::FeedOverrideReset,
        SpeedOverride::FeedIncrease10 => RealtimeCommand::FeedOverridePlusTen,
        SpeedOverride::FeedDecrease10 => RealtimeCommand::FeedOverrideMinusTen,
        SpeedOverride::FeedIncrease1 => RealtimeCommand::FeedOverridePlusOne,
        SpeedOverride::FeedDecrease1 => RealtimeCommand::FeedOvrerideMinusOne,
        SpeedOverride::RapidReset => RealtimeCommand::RapidOverrideReset,
        SpeedOverride::RapidHalf => RealtimeCommand::RapidOverrideHalf,
        SpeedOverride::RapidQuarter => RealtimeCommand::RapidOverrideQuarter,
        SpeedOverride::SpindleReset => RealtimeCommand::SpindleOverrideReset,
        SpeedOverride::SpindleIncrease10 => RealtimeCommand::SpindleOverridePlusTen,
        SpeedOverride::SpindleDecrease10 => RealtimeCommand::SpindleOverrideMinusTen,
        SpeedOverride::SpindleIncrease1 => RealtimeCommand::SpindleOverridePlusOne,
        SpeedOverride::SpindleDecrease1 => RealtimeCommand::SpindleOverrideMinusOne,
    }
}

/// What to do with a received line.
#[derive(Clone, Copy, Debug, PartialEq, Eq, Structural)]
pub enum LineStep {
    /// Take it in with `receive_line`.
    Receive,
    /// Ignore it: a reset was sent and its greeting has not come yet.
    Skip,
    /// The greeting after a reset: reset the bookkeeping with `reset`.
    Greeted,
}

/// After a reset (and at start-up) the lines received are ignored until the
/// controller greets; every other line is taken in.
pub fn line_step(awaiting_greeting: bool, line: &str) -> (s: LineStep)
    ensures
        !awaiting_greeting ==> s == LineStep::Receive,
        awaiting_greeting && grbl_line(line.spec_bytes()) is GrblGreeting ==> s == LineStep::Greeted,
        awaiting_greeting && !(grbl_line(line.spec_bytes()) is GrblGreeting) ==> s == LineStep::Skip,
{
    if !awaiting_greeting {
        LineStep::Receive
    } else if crate::grbl_parser::is_greeting(line) {
        LineStep::Greeted
    } else {
        LineStep::Skip
    }
}

/// Law: each speed override sends GRBL's byte for the override of the same
/// name (feed: reset 0x90, +10% 0x91, -10% 0x92, +1% 0x93, -1% 0x94; rapid:
/// 100% 0x95, 50% 0x96, 25% 0x97; spindle: reset 0x99, +10% 0x9A, -10% 0x9B,
/// +1% 0x9C, -1% 0x9D), and no two overrides send the same byte.
pub proof fn law_override_bytes(a: SpeedOverride, b: SpeedOverride)
    ensures
        immediate_bytes(ImmediateRequest::OverrideSpeed(a)) == immediate_bytes(
            ImmediateRequest::OverrideSpeed(b),
        ) ==> a == b,
        immediate_bytes(ImmediateRequest::OverrideSpeed(SpeedOverride::FeedReset)) == seq![0x90u8],
        immediate_bytes(ImmediateRequest::OverrideSpeed(SpeedOverride::FeedIncrease10)) == seq![
            0x91u8,
        ],
        immediate_bytes(ImmediateRequest::OverrideSpeed(SpeedOverride::FeedDecrease10)) == seq![
            0x92u8,
        ],
        immediate_bytes(ImmediateRequest::OverrideSpeed(SpeedOverride::FeedIncrease1)) == seq![
            0x93u8,
        ],
        immediate_bytes(ImmediateRequest::OverrideSpeed(SpeedOverride::FeedDecrease1)) == seq![
            0x94u8,
        ],
        immediate_bytes(ImmediateRequest::OverrideSpeed(SpeedOverride::RapidReset)) == seq![0x95u8],
        immediate_bytes(ImmediateRequest::OverrideSpeed(SpeedOverride::RapidHalf)) == seq![0x96u8],
        immediate_bytes(ImmediateRequest::OverrideSpeed(SpeedOverride::RapidQuarter)) == seq![
            0x97u8,
        ],
        immediate_bytes(ImmediateRequest::OverrideSpeed(SpeedOverride::SpindleReset)) == seq![
            0x99u8,
        ],
        immediate_bytes(ImmediateRequest::OverrideSpeed(SpeedOverride::SpindleIncrease10)) == seq![
            0x9Au8,
        ],
        immediate_bytes(ImmediateRequest::OverrideSpeed(SpeedOverride::SpindleDecrease10)) == seq![
            0x9Bu8,
        ],
        immediate_bytes(ImmediateRequest::OverrideSpeed(SpeedOverride::SpindleIncrease1)) == seq![
            0x9Cu8,
        ],
        immediate_bytes(ImmediateRequest::OverrideSpeed(SpeedOverride::SpindleDecrease1)) == seq![
            0x9Du8,
        ],
{
    if immediate_bytes(ImmediateRequest::OverrideSpeed(a)) == immediate_bytes(
        ImmediateRequest::OverrideSpeed(b),
    ) {
        assert(immediate_bytes(ImmediateRequest::OverrideSpeed(a))[0] == immediate_bytes(
            ImmediateRequest::OverrideSpeed(b),
        )[0]);
    }
}

/// Law: an acknowledgement frees the oldest written line's bytes, and then
/// writes the held-back line exactly when it fits in what is left; the
/// buffer stays within its limits either way.
pub proof fn law_acknowledge(m: WriterModel)
    requires
        m.wf(),
        m.waiting_lines.len() > 0,
    ensures
        acknowledged(m).0.wf(),
        m.next_line is None ==> acknowledged(m).1 is None && acknowledged(m).0.waiting_size
            == m.waiting_size - m.waiting_lines[0],
        m.next_line matches Some(next) ==> (acknowledged(m).1 == Some(next) <==> (
        m.waiting_size - m.waiting_lines[0] + line_length(next) <= m.max_waiting_size
            && m.waiting_lines.len() - 1 < 8)),
        acknowledged(m).1 is None ==> acknowledged(m).0.waiting_lines == m.waiting_lines.drop_first(),
{
    crate::machine_writer::lemma_total_facts(m.waiting_lines);
    let freed = WriterModel {
        waiting_size: (m.waiting_size - m.waiting_lines[0]) as u16,
        waiting_lines: m.waiting_lines.drop_first(),
        ..m
    };
    assert(freed.wf());
    match m.next_line {
        Some(next) => {
            if fits(freed, line_length(next)) {
                crate::machine_writer::law_writes_within_limits(
                    WriterModel { next_line: None, ..freed },
                    line_length(next),
                );
            }
        },
        None => {},
    }
}

} // verus!
