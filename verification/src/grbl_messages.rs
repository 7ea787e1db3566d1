//! Messages a GRBL controller sends, and the state reports built from them.
use vstd::prelude::*;
use crate::number::{can_combine, difference_decimal, Decimal};

verus! {

/// The machine state named at the start of a status report.
#[derive(Debug, Clone, Copy, PartialEq, Eq, Structural)]
pub enum GrblState {
    Idle,
    Run,
    Hold(i64),
    Jog,
    Alarm,
    Door(i64),
    Check,
    Home,
    Sleep,
}

/// A reported position, in machine or in work coordinates.
#[derive(Debug, Clone, PartialEq)]
pub enum GrblPosition {
    Machine(Vec<Decimal>),
    Work(Vec<Decimal>),
}

pub enum PositionModel {
    Machine(Seq<Decimal>),
    Work(Seq<Decimal>),
}

impl View for GrblPosition {
    type V = PositionModel;

    open spec fn view(&self) -> PositionModel {
        match self {
            GrblPosition::Machine(v) => PositionModel::Machine(v@),
            GrblPosition::Work(v) => PositionModel::Work(v@),
        }
    }
}

/// A status report: the state, the position, and whatever optional fields
/// the report carried. Fields the controller sends that are not known here
/// are kept, in order, in `unknown_terms`.
#[derive(Debug, Clone, PartialEq)]
pub struct GrblStatus {
    pub state: GrblState,
    pub machine_position: GrblPosition,
    pub current_feed: Option<Decimal>,
    pub current_spindle: Option<Decimal>,
    pub planner: Option<u64>,
    pub rx_bytes: Option<u64>,
    pub work_coordinate_offset: Option<Vec<Decimal>>,
    pub line_number: Option<u64>,
    pub pins: Option<Vec<u8>>,
    pub feed_override: Option<Decimal>,
    pub rapid_override: Option<Decimal>,
    pub spindle_override: Option<Decimal>,
    pub accessory_state: Option<Vec<u8>>,
    pub unknown_terms: Vec<Vec<u8>>,
}

pub struct StatusModel {
    pub state: GrblState,
    pub machine_position: PositionModel,
    pub current_feed: Option<Decimal>,
    pub current_spindle: Option<Decimal>,
    pub planner: Option<u64>,
    pub rx_bytes: Option<u64>,
    pub work_coordinate_offset: Option<Seq<Decimal>>,
    pub line_number: Option<u64>,
    pub pins: Option<Seq<u8>>,
    pub feed_override: Option<Decimal>,
    pub rapid_override: Option<Decimal>,
    pub spindle_override: Option<Decimal>,
    pub accessory_state: Option<Seq<u8>>,
    pub unknown_terms: Seq<Seq<u8>>,
}

pub open spec fn bytes_view(o: Option<Vec<u8>>) -> Option<Seq<u8>> {
    match o {
        Some(v) => Some(v@),
        None => None,
    }
}

pub open spec fn decimals_view(o: Option<Vec<Decimal>>) -> Option<Seq<Decimal>> {
    match o {
        Some(v) => Some(v@),
        None => None,
    }
}

impl View for GrblStatus {
    type V = StatusModel;

    open spec fn view(&self) -> StatusModel {
        StatusModel {
            state: self.state,
            machine_position: self.machine_position@,
            current_feed: self.current_feed,
            current_spindle: self.current_spindle,
            planner: self.planner,
            rx_bytes: self.rx_bytes,
            work_coordinate_offset: decimals_view(self.work_coordinate_offset),
            line_number: self.line_number,
            pins: bytes_view(self.pins),
            feed_override: self.feed_override,
            rapid_override: self.rapid_override,
            spindle_override: self.spindle_override,
            accessory_state: bytes_view(self.accessory_state),
            unknown_terms: self.unknown_terms.deep_view(),
        }
    }
}

/// A report with only a state and a position.
pub open spec fn new_status(state: GrblState, position: PositionModel) -> StatusModel {
    StatusModel {
        state,
        machine_position: position,
        current_feed: None,
        current_spindle: None,
        planner: None,
        rx_bytes: None,
        work_coordinate_offset: None,
        line_number: None,
        pins: None,
        feed_override: None,
        rapid_override: None,
        spindle_override: None,
        accessory_state: None,
        unknown_terms: Seq::empty(),
    }
}

impl GrblStatus {
    pub fn new(state: GrblState, machine_position: GrblPosition) -> (s: Self)
        ensures
            s@ == new_status(state, machine_position@),
    {
        let s = GrblStatus {
            state,
            machine_position,
            current_feed: None,
            current_spindle: None,
            planner: None,
            rx_bytes: None,
            work_coordinate_offset: None,
            line_number: None,
            pins: None,
            feed_override: None,
            rapid_override: None,
            spindle_override: None,
            accessory_state: None,
            unknown_terms: Vec::new(),
        };
        assert(s@.unknown_terms =~= Seq::<Seq<u8>>::empty());
        s
    }
}

/// The state of the machine as the controller last reported it, with the
/// position in machine coordinates.
#[derive(Debug, Clone, PartialEq)]
pub struct GrblStateInfo {
    pub state: GrblState,
    pub machine_position: Vec<Decimal>,
    pub work_coordinate_offset: Vec<Decimal>,
}

/// The state report handed to clients.
#[derive(Debug, Clone, PartialEq)]
pub struct GrblFullInfo {
    pub state: GrblState,
    pub machine_position: Vec<Decimal>,
    pub work_coordinate_offset: Vec<Decimal>,
}

impl GrblStateInfo {
    pub fn to_full_info(self) -> (r: GrblFullInfo)
        ensures
            r.state == self.state,
            r.machine_position@ == self.machine_position@,
            r.work_coordinate_offset@ == self.work_coordinate_offset@,
    {
        GrblFullInfo {
            state: self.state,
            machine_position: self.machine_position,
            work_coordinate_offset: self.work_coordinate_offset,
        }
    }
}

/// Machine position minus offset, axis by axis, over the axes both have.
pub open spec fn work_position_of(machine: Seq<Decimal>, offset: Seq<Decimal>) -> Seq<Decimal> {
    let n = if machine.len() <= offset.len() {
        machine.len()
    } else {
        offset.len()
    };
    Seq::new(n, |i: int| difference_decimal(machine[i], offset[i]))
}

impl GrblFullInfo {
    /// The position in work coordinates.
    pub fn work_position(&self) -> (r: Vec<Decimal>)
        requires
            forall|i: int|
                0 <= i < self.machine_position@.len() && i < self.work_coordinate_offset@.len()
                    ==> can_combine(
                    #[trigger] self.machine_position@[i],
                    self.work_coordinate_offset@[i],
                ),
        ensures
            r@ == work_position_of(self.machine_position@, self.work_coordinate_offset@),
    {
        let n = if self.machine_position.len() <= self.work_coordinate_offset.len() {
            self.machine_position.len()
        } else {
            self.work_coordinate_offset.len()
        };
        let mut r: Vec<Decimal> = Vec::new();
        let mut i: usize = 0;
        while i < n
            invariant
                n <= self.machine_position.len(),
                n <= self.work_coordinate_offset.len(),
                n == (if self.machine_position@.len() <= self.work_coordinate_offset@.len() {
                    self.machine_position@.len()
                } else {
                    self.work_coordinate_offset@.len()
                }),
                i <= n,
                r@.len() == i,
                forall|j: int|
                    0 <= j < self.machine_position@.len() && j < self.work_coordinate_offset@.len()
                        ==> can_combine(
                        #[trigger] self.machine_position@[j],
                        self.work_coordinate_offset@[j],
                    ),
                forall|j: int|
                    0 <= j < i ==> r@[j] == difference_decimal(
                        self.machine_position@[j],
                        self.work_coordinate_offset@[j],
                    ),
            decreases n - i,
        {
            assert(can_combine(self.machine_position@[i as int], self.work_coordinate_offset@[i as int]));
            let d = self.machine_position[i].sub(self.work_coordinate_offset[i]);
            r.push(d);
            i = i + 1;
        }
        assert(r@ =~= work_position_of(self.machine_position@, self.work_coordinate_offset@));
        r
    }
}

/// The result of a probing cycle.
#[derive(Debug, Clone, PartialEq)]
pub struct ProbeEvent {
    pub success: bool,
    pub position: Vec<Decimal>,
}

/// One line received from the controller.
#[derive(Debug, Clone, PartialEq)]
pub enum GrblMessage {
    ProbeEvent(ProbeEvent),
    StatusEvent(GrblStatus),
    GrblError(u64),
    GrblAlarm(u64),
    GrblOk,
    GrblGreeting,
    Unrecognized(Vec<u8>),
}

pub enum MessageModel {
    ProbeEvent { success: bool, position: Seq<Decimal> },
    StatusEvent(StatusModel),
    GrblError(u64),
    GrblAlarm(u64),
    GrblOk,
    GrblGreeting,
    Unrecognized(Seq<u8>),
}

impl View for GrblMessage {
    type V = MessageModel;

    open spec fn view(&self) -> MessageModel {
        match self {
            GrblMessage::ProbeEvent(p) => MessageModel::ProbeEvent {
                success: p.success,
                position: p.position@,
            },
            GrblMessage::StatusEvent(s) => MessageModel::StatusEvent(s@),
            GrblMessage::GrblError(e) => MessageModel::GrblError(*e),
            GrblMessage::GrblAlarm(a) => MessageModel::GrblAlarm(*a),
            GrblMessage::GrblOk => MessageModel::GrblOk,
            GrblMessage::GrblGreeting => MessageModel::GrblGreeting,
            GrblMessage::Unrecognized(t) => MessageModel::Unrecognized(t@),
        }
    }
}

/// Single-byte commands the controller acts on as soon as it reads them.
#[derive(Debug, Clone, Copy, PartialEq, Eq, Structural)]
pub enum RealtimeCommand {
    Reset,
    StatusReport,
    CycleStart,
    FeedHold,
    JogCancel,
    FeedOverrideReset,
    FeedOverridePlusTen,
    FeedOverrideMinusTen,
    FeedOverridePlusOne,
    FeedOvrerideMinusOne,
    RapidOverrideReset,
    RapidOverrideHalf,
    RapidOverrideQuarter,
    SpindleOverrideReset,
    SpindleOverridePlusTen,
    SpindleOverrideMinusTen,
    SpindleOverridePlusOne,
    SpindleOverrideMinusOne,
    /// Only in the hold state.
    ToggleSpindleStop,
}

pub open spec fn realtime_code(c: RealtimeCommand) -> u8 {
    match c {
        RealtimeCommand::Reset => 0x18,
        RealtimeCommand::StatusReport => 63,
        RealtimeCommand::CycleStart => 126,
        RealtimeCommand::FeedHold => 33,
        RealtimeCommand::JogCancel => 0x85,
        RealtimeCommand::FeedOverrideReset => 0x90,
        RealtimeCommand::FeedOverridePlusTen => 0x91,
        RealtimeCommand::FeedOverrideMinusTen => 0x92,
        RealtimeCommand::FeedOverridePlusOne => 0x93,
        RealtimeCommand::FeedOvrerideMinusOne => 0x94,
        RealtimeCommand::RapidOverrideReset => 0x95,
        RealtimeCommand::RapidOverrideHalf => 0x96,
        RealtimeCommand::RapidOverrideQuarter => 0x97,
        RealtimeCommand::SpindleOverrideReset => 0x99,
        RealtimeCommand::SpindleOverridePlusTen => 0x9A,
        RealtimeCommand::SpindleOverrideMinusTen => 0x9B,
        RealtimeCommand::SpindleOverridePlusOne => 0x9C,
        RealtimeCommand::SpindleOverrideMinusOne => 0x9D,
        RealtimeCommand::ToggleSpindleStop => 0x9E,
    }
}

impl RealtimeCommand {
    /// The byte sent for the command.
    pub fn code(self) -> (b: u8)
        ensures
            b == realtime_code(self),
    {
        match self {
            RealtimeCommand::Reset => 0x18,
            RealtimeCommand::StatusReport => 63,
            RealtimeCommand::CycleStart => 126,
            RealtimeCommand::FeedHold => 33,
            RealtimeCommand::JogCancel => 0x85,
            RealtimeCommand::FeedOverrideReset => 0x90,
            RealtimeCommand::FeedOverridePlusTen => 0x91,
            RealtimeCommand::FeedOverrideMinusTen => 0x92,
            RealtimeCommand::FeedOverridePlusOne => 0x93,
            RealtimeCommand::FeedOvrerideMinusOne => 0x94,
            RealtimeCommand::RapidOverrideReset => 0x95,
            RealtimeCommand::RapidOverrideHalf => 0x96,
            RealtimeCommand::RapidOverrideQuarter => 0x97,
            RealtimeCommand::SpindleOverrideReset => 0x99,
            RealtimeCommand::SpindleOverridePlusTen => 0x9A,
            RealtimeCommand::SpindleOverrideMinusTen => 0x9B,
            RealtimeCommand::SpindleOverridePlusOne => 0x9C,
            RealtimeCommand::SpindleOverrideMinusOne => 0x9D,
            RealtimeCommand::ToggleSpindleStop => 0x9E,
        }
    }
}

/// Law: each realtime command is sent as the byte GRBL assigns to it: the
/// reset is Ctrl-X, a status report `?`, a cycle start `~`, a feed hold `!`;
/// the jog cancel and the overrides are the extended bytes, feed overrides
/// from 0x90 (reset, +10%, -10%, +1%, -1%), rapid from 0x95 (100%, 50%, 25%),
/// spindle from 0x99 (reset, +10%, -10%, +1%, -1%), then the spindle stop
/// toggle. No two commands share a byte.
pub proof fn law_realtime_codes(a: RealtimeCommand, b: RealtimeCommand)
    ensures
        realtime_code(a) == realtime_code(b) ==> a == b,
        realtime_code(RealtimeCommand::Reset) == 0x18u8,
        realtime_code(RealtimeCommand::StatusReport) == 0x3Fu8,
        realtime_code(RealtimeCommand::CycleStart) == 0x7Eu8,
        realtime_code(RealtimeCommand::FeedHold) == 0x21u8,
        realtime_code(RealtimeCommand::JogCancel) == 0x85u8,
        realtime_code(RealtimeCommand::FeedOverrideReset) == 0x90u8,
        realtime_code(RealtimeCommand::FeedOverridePlusTen) == 0x91u8,
        realtime_code(RealtimeCommand::FeedOverrideMinusTen) == 0x92u8,
        realtime_code(RealtimeCommand::FeedOverridePlusOne) == 0x93u8,
        realtime_code(RealtimeCommand::FeedOvrerideMinusOne) == 0x94u8,
        realtime_code(RealtimeCommand::RapidOverrideReset) == 0x95u8,
        realtime_code(RealtimeCommand::RapidOverrideHalf) == 0x96u8,
        realtime_code(RealtimeCommand::RapidOverrideQuarter) == 0x97u8,
        realtime_code(RealtimeCommand::SpindleOverrideReset) == 0x99u8,
        realtime_code(RealtimeCommand::SpindleOverridePlusTen) == 0x9Au8,
        realtime_code(RealtimeCommand::SpindleOverrideMinusTen) == 0x9Bu8,
        realtime_code(RealtimeCommand::SpindleOverridePlusOne) == 0x9Cu8,
        realtime_code(RealtimeCommand::SpindleOverrideMinusOne) == 0x9Du8,
        realtime_code(RealtimeCommand::ToggleSpindleStop) == 0x9Eu8,
{
}

} // verus!
