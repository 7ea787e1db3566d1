//! G-code lines as the controller accepts them: modal settings followed by at
//! most one command, with axis words given by index into a letter table.
use vstd::prelude::*;
use crate::number::Decimal;

verus! {

/// `(axis index, value)` pairs of a move, in the order written.
#[derive(Debug)]
pub struct AxisValues(pub Vec<(usize, Decimal)>);

/// `(offset axis index, value)` pairs of an arc centre, in the order written.
#[derive(Debug)]
pub struct OffsetAxisValues(pub Vec<(usize, Decimal)>);

impl View for AxisValues {
    type V = Seq<(usize, Decimal)>;

    open spec fn view(&self) -> Seq<(usize, Decimal)> {
        self.0@
    }
}

impl View for OffsetAxisValues {
    type V = Seq<(usize, Decimal)>;

    open spec fn view(&self) -> Seq<(usize, Decimal)> {
        self.0@
    }
}

#[derive(Debug, Clone, Copy, PartialEq, Eq, Structural)]
pub enum Plane {
    XY,
    ZX,
    YZ,
}

#[derive(Debug, Clone, Copy, PartialEq, Eq, Structural)]
pub enum Unit {
    Inch,
    Millimeter,
}

#[derive(Debug, Clone, Copy, PartialEq, Eq, Structural)]
pub enum ProbeDirection {
    Towards,
    Away,
}

#[derive(Debug, Clone, Copy, PartialEq, Eq, Structural)]
pub enum ProbeRequirement {
    Optional,
    Require,
}

#[derive(Debug, Clone, Copy, PartialEq, Eq, Structural)]
pub enum CoordinateSystem {
    Coord0,
    Coord1,
    Coord2,
    Coord3,
    Coord4,
    Coord5,
}

#[derive(Debug, Clone, Copy, PartialEq, Eq, Structural)]
pub enum CoordinateMode {
    Absolute,
    Incremental,
}

#[derive(Debug, Clone, Copy, PartialEq, Eq, Structural)]
pub enum Orientation {
    Clockwise,
    Counterclockwise,
}

#[derive(Debug, Clone, Copy, PartialEq, Eq, Structural)]
pub enum SpindleMode {
    Clockwise,
    Off,
}

/// A setting that stays in force for the following lines.
#[derive(Debug, Clone, Copy, PartialEq, Eq, Structural)]
pub enum GCodeModal {
    SetFeedrate(Decimal),
    SetArcPlane(Plane),
    SetUnits(Unit),
    SetCoordinateSystem(CoordinateSystem),
    SetCoordinateMode(CoordinateMode),
    SetSpindle(SpindleMode),
    SetSpindleSpeed(Decimal),
    EndProgram,
}

#[derive(Debug, Clone, Copy, PartialEq, Eq, Structural)]
pub enum MoveMode {
    Rapid,
    Controlled,
    Unspecified,
}

#[allow(inconsistent_fields)]
#[derive(Debug)]
pub enum GCodeCommand {
    /// G0, G1, or a move with no G word.
    Move { mode: MoveMode, position: AxisValues },
    /// G2 (clockwise) or G3 (counterclockwise).
    ArcMove {
        orientation: Orientation,
        position: AxisValues,
        offsets: OffsetAxisValues,
        revolutions: Option<u64>,
    },
    /// G4.
    Dwell { duration: Decimal },
    /// G10 L20.
    SetWorkCoordinateTo(AxisValues),
    /// G38.2 to G38.5.
    Probe { position: AxisValues, mode: ProbeDirection, requirement: ProbeRequirement },
}

#[derive(Debug)]
pub struct GCodeLine {
    pub modals: Vec<GCodeModal>,
    pub command: Option<GCodeCommand>,
}

/// Letters naming the axes and the arc-centre offsets, and how many digits
/// follow the point when numbers are written.
#[derive(Debug)]
pub struct GCodeFormatSpecification {
    pub axis_letters: Vec<u8>,
    pub offset_axis_letters: Vec<u8>,
    pub float_digits: usize,
}

/// The content of a command.
#[allow(inconsistent_fields)]
pub enum CommandModel {
    Move { mode: MoveMode, position: Seq<(usize, Decimal)> },
    ArcMove {
        orientation: Orientation,
        position: Seq<(usize, Decimal)>,
        offsets: Seq<(usize, Decimal)>,
        revolutions: Option<u64>,
    },
    Dwell { duration: Decimal },
    SetWorkCoordinateTo(Seq<(usize, Decimal)>),
    Probe { position: Seq<(usize, Decimal)>, mode: ProbeDirection, requirement: ProbeRequirement },
}

/// The content of a line.
pub struct LineModel {
    pub modals: Seq<GCodeModal>,
    pub command: Option<CommandModel>,
}

impl View for GCodeCommand {
    type V = CommandModel;

    open spec fn view(&self) -> CommandModel {
        match self {
            GCodeCommand::Move { mode, position } => CommandModel::Move {
                mode: *mode,
                position: position@,
            },
            GCodeCommand::ArcMove { orientation, position, offsets, revolutions } =>
                CommandModel::ArcMove {
                orientation: *orientation,
                position: position@,
                offsets: offsets@,
                revolutions: *revolutions,
            },
            GCodeCommand::Dwell { duration } => CommandModel::Dwell { duration: *duration },
            GCodeCommand::SetWorkCoordinateTo(values) => CommandModel::SetWorkCoordinateTo(
                values@,
            ),
            GCodeCommand::Probe { position, mode, requirement } => CommandModel::Probe {
                position: position@,
                mode: *mode,
                requirement: *requirement,
            },
        }
    }
}

impl View for GCodeLine {
    type V = LineModel;

    open spec fn view(&self) -> LineModel {
        LineModel {
            modals: self.modals@,
            command: match &self.command {
                Some(c) => Some(c@),
                None => None,
            },
        }
    }
}

impl CommandModel {
    /// The target position of a command that moves the tool.
    pub open spec fn position(self) -> Option<Seq<(usize, Decimal)>> {
        match self {
            CommandModel::Move { position, .. } => Some(position),
            CommandModel::Probe { position, .. } => Some(position),
            CommandModel::ArcMove { position, .. } => Some(position),
            _ => None,
        }
    }
}

} // verus!
