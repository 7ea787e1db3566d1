//! Writing G-code lines as text.
use vstd::prelude::*;
use crate::gcode::{
    AxisValues, CommandModel, CoordinateMode, CoordinateSystem, GCodeCommand,
    GCodeFormatSpecification, GCodeLine, GCodeModal, LineModel, MoveMode, OffsetAxisValues,
    Orientation, Plane, ProbeDirection, ProbeRequirement, SpindleMode, Unit,
};
use crate::number::{fixed_text, push_fixed, Decimal};
use crate::text::{nat_text, push_nat_text};

verus! {

/// The UTF-8 text of the character whose code is the byte `b`.
pub open spec fn letter_text(b: u8) -> Seq<u8> {
    if b < 128 {
        seq![b]
    } else {
        seq![(192 + b / 64) as u8, (128 + b % 64) as u8]
    }
}

/// One axis word: the axis letter followed by the value.
pub open spec fn axis_word_text(letters: Seq<u8>, word: (usize, Decimal), digits: nat) -> Seq<
    u8,
> {
    letter_text(letters[word.0 as int]) + fixed_text(word.1, digits)
}

/// Axis words separated by single spaces.
pub open spec fn axes_text(letters: Seq<u8>, values: Seq<(usize, Decimal)>, digits: nat) -> Seq<
    u8,
>
    decreases values.len(),
{
    if values.len() == 0 {
        Seq::empty()
    } else if values.len() == 1 {
        axis_word_text(letters, values[0], digits)
    } else {
        axes_text(letters, values.drop_last(), digits) + seq![32u8] + axis_word_text(
            letters,
            values.last(),
            digits,
        )
    }
}

pub open spec fn modal_text(m: GCodeModal, digits: nat) -> Seq<u8> {
    match m {
        GCodeModal::SetFeedrate(v) => seq![70u8] + fixed_text(v, digits),
        GCodeModal::SetArcPlane(Plane::XY) => seq![71u8, 49u8, 55u8],
        GCodeModal::SetArcPlane(Plane::ZX) => seq![71u8, 49u8, 56u8],
        GCodeModal::SetArcPlane(Plane::YZ) => seq![71u8, 49u8, 57u8],
        GCodeModal::SetUnits(Unit::Inch) => seq![71u8, 50u8, 48u8],
        GCodeModal::SetUnits(Unit::Millimeter) => seq![71u8, 50u8, 49u8],
        GCodeModal::SetCoordinateSystem(CoordinateSystem::Coord0) => seq![71u8, 53u8, 52u8],
        GCodeModal::SetCoordinateSystem(CoordinateSystem::Coord1) => seq![71u8, 53u8, 53u8],
        GCodeModal::SetCoordinateSystem(CoordinateSystem::Coord2) => seq![71u8, 53u8, 54u8],
        GCodeModal::SetCoordinateSystem(CoordinateSystem::Coord3) => seq![71u8, 53u8, 55u8],
        GCodeModal::SetCoordinateSystem(CoordinateSystem::Coord4) => seq![71u8, 53u8, 56u8],
        GCodeModal::SetCoordinateSystem(CoordinateSystem::Coord5) => seq![71u8, 53u8, 57u8],
        GCodeModal::SetCoordinateMode(CoordinateMode::Absolute) => seq![71u8, 57u8, 48u8],
        GCodeModal::SetCoordinateMode(CoordinateMode::Incremental) => seq![71u8, 57u8, 49u8],
        GCodeModal::SetSpindle(SpindleMode::Clockwise) => seq![77u8, 51u8],
        GCodeModal::SetSpindle(SpindleMode::Off) => seq![77u8, 53u8],
        GCodeModal::SetSpindleSpeed(v) => seq![83u8] + fixed_text(v, digits),
        GCodeModal::EndProgram => seq![77u8, 50u8],
    }
}

/// Modal words separated by single spaces.
pub open spec fn modals_text(ms: Seq<GCodeModal>, digits: nat) -> Seq<u8>
    decreases ms.len(),
{
    if ms.len() == 0 {
        Seq::empty()
    } else if ms.len() == 1 {
        modal_text(ms[0], digits)
    } else {
        modals_text(ms.drop_last(), digits) + seq![32u8] + modal_text(ms.last(), digits)
    }
}

pub open spec fn probe_word(mode: ProbeDirection, requirement: ProbeRequirement) -> Seq<u8> {
    match (mode, requirement) {
        (ProbeDirection::Towards, ProbeRequirement::Require) => seq![71u8, 51u8, 56u8, 46u8, 50u8],
        (ProbeDirection::Towards, ProbeRequirement::Optional) => seq![71u8, 51u8, 56u8, 46u8, 51u8],
        (ProbeDirection::Away, ProbeRequirement::Require) => seq![71u8, 51u8, 56u8, 46u8, 52u8],
        (ProbeDirection::Away, ProbeRequirement::Optional) => seq![71u8, 51u8, 56u8, 46u8, 53u8],
    }
}

pub open spec fn command_text(spec: GCodeFormatSpecification, c: CommandModel) -> Seq<u8> {
    let digits = spec.float_digits as nat;
    let axes = spec.axis_letters@;
    match c {
        CommandModel::Move { mode, position } => (match mode {
            MoveMode::Rapid => seq![71u8, 48u8, 32u8],
            MoveMode::Controlled => seq![71u8, 49u8, 32u8],
            MoveMode::Unspecified => Seq::empty(),
        }) + axes_text(axes, position, digits),
        CommandModel::ArcMove { orientation, position, offsets, revolutions } => (match orientation {
            Orientation::Clockwise => seq![71u8, 50u8, 32u8],
            Orientation::Counterclockwise => seq![71u8, 51u8, 32u8],
        }) + axes_text(axes, position, digits) + seq![32u8] + axes_text(
            spec.offset_axis_letters@,
            offsets,
            digits,
        ) + (match revolutions {
            Some(r) => seq![80u8] + nat_text(r as nat),
            None => Seq::empty(),
        }),
        CommandModel::Dwell { duration } => seq![71u8, 52u8, 32u8, 80u8] + fixed_text(
            duration,
            digits,
        ),
        CommandModel::SetWorkCoordinateTo(values) => seq![
            71u8,
            49u8,
            48u8,
            32u8,
            76u8,
            50u8,
            48u8,
            32u8,
        ] + axes_text(axes, values, digits),
        CommandModel::Probe { position, mode, requirement } => probe_word(mode, requirement)
            + seq![32u8] + axes_text(axes, position, digits),
    }
}

/// The text of a line: its modal words, then its command, separated by spaces.
pub open spec fn line_text(spec: GCodeFormatSpecification, line: LineModel) -> Seq<u8> {
    let digits = spec.float_digits as nat;
    let head = if line.modals.len() == 0 {
        Seq::empty()
    } else {
        modals_text(line.modals, digits) + (if line.command is Some {
            seq![32u8]
        } else {
            Seq::empty()
        })
    };
    head + match line.command {
        Some(c) => command_text(spec, c),
        None => Seq::empty(),
    }
}

/// Each axis word names a letter of the table, and each value can be written.
pub open spec fn axes_printable(letters: Seq<u8>, values: Seq<(usize, Decimal)>) -> bool {
    forall|i: int|
        0 <= i < values.len() ==> (#[trigger] values[i]).0 < letters.len() && values[i].1.exponent
            <= 38
}

pub open spec fn modal_printable(m: GCodeModal) -> bool {
    match m {
        GCodeModal::SetFeedrate(v) => v.exponent <= 38,
        GCodeModal::SetSpindleSpeed(v) => v.exponent <= 38,
        _ => true,
    }
}

pub open spec fn command_printable(spec: GCodeFormatSpecification, c: CommandModel) -> bool {
    match c {
        CommandModel::Move { position, .. } => axes_printable(spec.axis_letters@, position),
        CommandModel::ArcMove { position, offsets, .. } => axes_printable(
            spec.axis_letters@,
            position,
        ) && axes_printable(spec.offset_axis_letters@, offsets),
        CommandModel::Dwell { duration } => duration.exponent <= 38,
        CommandModel::SetWorkCoordinateTo(values) => axes_printable(spec.axis_letters@, values),
        CommandModel::Probe { position, .. } => axes_printable(spec.axis_letters@, position),
    }
}

/// A line can be written under `spec`: its axis indices are in the letter
/// tables (an index outside them has no letter).
pub open spec fn line_printable(spec: GCodeFormatSpecification, line: LineModel) -> bool {
    &&& forall|i: int| 0 <= i < line.modals.len() ==> modal_printable(#[trigger] line.modals[i])
    &&& match line.command {
        Some(c) => command_printable(spec, c),
        None => true,
    }
}

fn push_letter(out: &mut Vec<u8>, b: u8)
    ensures
        final(out)@ == old(out)@ + letter_text(b),
{
    if b < 128 {
        out.push(b);
        assert(out@ =~= old(out)@ + letter_text(b));
    } else {
        out.push(192 + b / 64);
        out.push(128 + b % 64);
        assert(out@ =~= old(out)@ + letter_text(b));
    }
}

fn push_bytes(out: &mut Vec<u8>, t: &[u8])
    ensures
        final(out)@ == old(out)@ + t@,
{
    crate::text::push_all(out, t);
}

fn push_axes(out: &mut Vec<u8>, letters: &Vec<u8>, values: &Vec<(usize, Decimal)>, digits: usize)
    requires
        axes_printable(letters@, values@),
    ensures
        final(out)@ == old(out)@ + axes_text(letters@, values@, digits as nat),
{
    let mut i: usize = 0;
    assert(values@.take(0) =~= Seq::<(usize, Decimal)>::empty());
    while i < values.len()
        invariant
            i <= values.len(),
            axes_printable(letters@, values@),
            out@ == old(out)@ + axes_text(letters@, values@.take(i as int), digits as nat),
        decreases values.len() - i,
    {
        let ghost prev = out@;
        let (index, value) = values[i];
        assert(values@[i as int] == (index, value));
        if i > 0 {
            out.push(32u8);
        }
        push_letter(out, letters[index]);
        push_fixed(out, value, digits);
        proof {
            let t = values@.take(i as int + 1);
            assert(t.drop_last() =~= values@.take(i as int));
            assert(t.last() == (index, value));
            if i > 0 {
                assert(out@ =~= prev + seq![32u8] + axis_word_text(
                    letters@,
                    (index, value),
                    digits as nat,
                ));
            } else {
                assert(t.len() == 1);
                assert(t[0] == (index, value));
                assert(out@ =~= prev + axis_word_text(letters@, (index, value), digits as nat));
                assert(axes_text(letters@, values@.take(0), digits as nat) =~= Seq::<u8>::empty());
            }
        }
        i = i + 1;
    }
    assert(values@.take(values.len() as int) =~= values@);
}

fn push_modal(out: &mut Vec<u8>, m: GCodeModal, digits: usize)
    requires
        modal_printable(m),
    ensures
        final(out)@ == old(out)@ + modal_text(m, digits as nat),
{
    let ghost start = old(out)@;
    match m {
        GCodeModal::SetFeedrate(v) => {
            out.push(70u8);
            push_fixed(out, v, digits);
        },
        GCodeModal::SetSpindleSpeed(v) => {
            out.push(83u8);
            push_fixed(out, v, digits);
        },
        GCodeModal::SetArcPlane(Plane::XY) => push_bytes(out, &[71u8, 49u8, 55u8]),
        GCodeModal::SetArcPlane(Plane::ZX) => push_bytes(out, &[71u8, 49u8, 56u8]),
        GCodeModal::SetArcPlane(Plane::YZ) => push_bytes(out, &[71u8, 49u8, 57u8]),
        GCodeModal::SetUnits(Unit::Inch) => push_bytes(out, &[71u8, 50u8, 48u8]),
        GCodeModal::SetUnits(Unit::Millimeter) => push_bytes(out, &[71u8, 50u8, 49u8]),
        GCodeModal::SetCoordinateSystem(CoordinateSystem::Coord0) => push_bytes(
            out,
            &[71u8, 53u8, 52u8],
        ),
        GCodeModal::SetCoordinateSystem(CoordinateSystem::Coord1) => push_bytes(
            out,
            &[71u8, 53u8, 53u8],
        ),
        GCodeModal::SetCoordinateSystem(CoordinateSystem::Coord2) => push_bytes(
            out,
            &[71u8, 53u8, 54u8],
        ),
        GCodeModal::SetCoordinateSystem(CoordinateSystem::Coord3) => push_bytes(
            out,
            &[71u8, 53u8, 55u8],
        ),
        GCodeModal::SetCoordinateSystem(CoordinateSystem::Coord4) => push_bytes(
            out,
            &[71u8, 53u8, 56u8],
        ),
        GCodeModal::SetCoordinateSystem(CoordinateSystem::Coord5) => push_bytes(
            out,
            &[71u8, 53u8, 57u8],
        ),
        GCodeModal::SetCoordinateMode(CoordinateMode::Absolute) => push_bytes(
            out,
            &[71u8, 57u8, 48u8],
        ),
        GCodeModal::SetCoordinateMode(CoordinateMode::Incremental) => push_bytes(
            out,
            &[71u8, 57u8, 49u8],
        ),
        GCodeModal::SetSpindle(SpindleMode::Clockwise) => push_bytes(out, &[77u8, 51u8]),
        GCodeModal::SetSpindle(SpindleMode::Off) => push_bytes(out, &[77u8, 53u8]),
        GCodeModal::EndProgram => push_bytes(out, &[77u8, 50u8]),
    }
    assert(out@ =~= start + modal_text(m, digits as nat));
}

fn push_modals(out: &mut Vec<u8>, ms: &Vec<GCodeModal>, digits: usize)
    requires
        forall|i: int| 0 <= i < ms@.len() ==> modal_printable(#[trigger] ms@[i]),
    ensures
        final(out)@ == old(out)@ + modals_text(ms@, digits as nat),
{
    let mut i: usize = 0;
    while i < ms.len()
        invariant
            i <= ms.len(),
            forall|j: int| 0 <= j < ms@.len() ==> modal_printable(#[trigger] ms@[j]),
            out@ == old(out)@ + modals_text(ms@.take(i as int), digits as nat),
        decreases ms.len() - i,
    {
        let ghost prev = out@;
        let m = ms[i];
        if i > 0 {
            out.push(32u8);
        }
        push_modal(out, m, digits);
        proof {
            let t = ms@.take(i as int + 1);
            assert(t.drop_last() =~= ms@.take(i as int));
            assert(t.last() == m);
            if i > 0 {
                assert(out@ =~= prev + seq![32u8] + modal_text(m, digits as nat));
            } else {
                assert(t[0] == m);
                assert(modals_text(ms@.take(0), digits as nat) =~= Seq::<u8>::empty());
                assert(out@ =~= prev + modal_text(m, digits as nat));
            }
        }
        i = i + 1;
    }
    assert(ms@.take(ms.len() as int) =~= ms@);
}

#[verifier::rlimit(30)]
fn push_command(out: &mut Vec<u8>, spec: &GCodeFormatSpecification, c: &GCodeCommand)
    requires
        command_printable(*spec, c@),
    ensures
        final(out)@ == old(out)@ + command_text(*spec, c@),
{
    let ghost start = old(out)@;
    let digits = spec.float_digits;
    match c {
        GCodeCommand::Move { mode, position } => {
            match mode {
                MoveMode::Rapid => push_bytes(out, &[71u8, 48u8, 32u8]),
                MoveMode::Controlled => push_bytes(out, &[71u8, 49u8, 32u8]),
                MoveMode::Unspecified => {},
            }
            let ghost after_word = out@;
            push_axes(out, &spec.axis_letters, &position.0, digits);
            assert(out@ =~= start + command_text(*spec, c@));
        },
        GCodeCommand::ArcMove { orientation, position, offsets, revolutions } => {
            match orientation {
                Orientation::Clockwise => push_bytes(out, &[71u8, 50u8, 32u8]),
                Orientation::Counterclockwise => push_bytes(out, &[71u8, 51u8, 32u8]),
            }
            push_axes(out, &spec.axis_letters, &position.0, digits);
            out.push(32u8);
            push_axes(out, &spec.offset_axis_letters, &offsets.0, digits);
            match revolutions {
                Some(r) => {
                    out.push(80u8);
                    push_nat_text(out, *r as u128);
                },
                None => {},
            }
            assert(out@ =~= start + command_text(*spec, c@));
        },
        GCodeCommand::Dwell { duration } => {
            push_bytes(out, &[71u8, 52u8, 32u8, 80u8]);
            push_fixed(out, *duration, digits);
            assert(out@ =~= start + command_text(*spec, c@));
        },
        GCodeCommand::SetWorkCoordinateTo(values) => {
            push_bytes(out, &[71u8, 49u8, 48u8, 32u8, 76u8, 50u8, 48u8, 32u8]);
            push_axes(out, &spec.axis_letters, &values.0, digits);
            assert(out@ =~= start + command_text(*spec, c@));
        },
        GCodeCommand::Probe { position, mode, requirement } => {
            match (mode, requirement) {
                (ProbeDirection::Towards, ProbeRequirement::Require) => push_bytes(
                    out,
                    &[71u8, 51u8, 56u8, 46u8, 50u8],
                ),
                (ProbeDirection::Towards, ProbeRequirement::Optional) => push_bytes(
                    out,
                    &[71u8, 51u8, 56u8, 46u8, 51u8],
                ),
                (ProbeDirection::Away, ProbeRequirement::Require) => push_bytes(
                    out,
                    &[71u8, 51u8, 56u8, 46u8, 52u8],
                ),
                (ProbeDirection::Away, ProbeRequirement::Optional) => push_bytes(
                    out,
                    &[71u8, 51u8, 56u8, 46u8, 53u8],
                ),
            }
            out.push(32u8);
            push_axes(out, &spec.axis_letters, &position.0, digits);
            assert(out@ =~= start + command_text(*spec, c@));
        },
    }
}

impl GCodeFormatSpecification {
    /// The text of `line`: modal words, then the command, separated by spaces.
    pub fn format_line(&self, line: &GCodeLine) -> (text: Vec<u8>)
        requires
            line_printable(*self, line@),
        ensures
            text@ == line_text(*self, line@),
    {
        let mut out: Vec<u8> = Vec::new();
        if line.modals.len() > 0 {
            assert(line@.modals == line.modals@);
            push_modals(&mut out, &line.modals, self.float_digits);
            if line.command.is_some() {
                out.push(32u8);
            }
        }
        match &line.command {
            Some(c) => {
                assert(line@.command == Some(c@));
                push_command(&mut out, self, c)
            },
            None => {},
        }
        assert(out@ =~= line_text(*self, line@));
        out
    }

    /// The bytes sent for `line`: its text and a newline.
    pub fn line_bytes(&self, line: &GCodeLine) -> (bytes: Vec<u8>)
        requires
            line_printable(*self, line@),
        ensures
            bytes@ == line_text(*self, line@).push(10u8),
    {
        let mut bytes = self.format_line(line);
        bytes.push(10u8);
        bytes
    }

    /// Whether `format_line` may be called with `line`.
    pub fn is_printable(&self, line: &GCodeLine) -> (b: bool)
        ensures
            b == line_printable(*self, line@),
    {
        let mut i: usize = 0;
        while i < line.modals.len()
            invariant
                i <= line.modals.len(),
                forall|j: int| 0 <= j < i ==> modal_printable(#[trigger] line.modals@[j]),
            decreases line.modals.len() - i,
        {
            let ok = match line.modals[i] {
                GCodeModal::SetFeedrate(v) => v.exponent <= 38,
                GCodeModal::SetSpindleSpeed(v) => v.exponent <= 38,
                _ => true,
            };
            if !ok {
                assert(!modal_printable(line@.modals[i as int]));
                return false;
            }
            i = i + 1;
        }
        assert(line@.modals == line.modals@);
        match &line.command {
            None => true,
            Some(c) => {
                assert(line@.command == Some(c@));
                match c {
                    GCodeCommand::Move { position, .. } => axes_ok(&self.axis_letters, &position.0),
                    GCodeCommand::ArcMove { position, offsets, .. } => axes_ok(
                        &self.axis_letters,
                        &position.0,
                    ) && axes_ok(&self.offset_axis_letters, &offsets.0),
                    GCodeCommand::Dwell { duration } => duration.exponent <= 38,
                    GCodeCommand::SetWorkCoordinateTo(values) => axes_ok(
                        &self.axis_letters,
                        &values.0,
                    ),
                    GCodeCommand::Probe { position, .. } => axes_ok(&self.axis_letters, &position.0),
                }
            },
        }
    }
}

fn axes_ok(letters: &Vec<u8>, values: &Vec<(usize, Decimal)>) -> (b: bool)
    ensures
        b == axes_printable(letters@, values@),
{
    let mut i: usize = 0;
    while i < values.len()
        invariant
            i <= values.len(),
            forall|j: int|
                0 <= j < i ==> (#[trigger] values@[j]).0 < letters@.len() && values@[j].1.exponent
                    <= 38,
        decreases values.len() - i,
    {
        let (index, value) = values[i];
        if index >= letters.len() || value.exponent > 38 {
            assert(values@[i as int] == (index, value));
            return false;
        }
        i = i + 1;
    }
    true
}

} // verus!
