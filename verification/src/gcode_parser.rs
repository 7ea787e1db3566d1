//! Reading one G-code line.
//!
//! A line is a sequence of words separated by blanks. A word is a run of
//! letters followed by its argument: `G` takes a run of digits, `.` and `-`
//! (so that `G38.2` names a probe), `M` a run of digits and `-`, `P` and `F`
//! take a decimal of at most 38 digits, and any other single letter takes a
//! decimal and must be one of the axis or offset-axis letters. At most one
//! word may choose the command and at most one `P` may be given; `G10` must
//! be followed by blanks and `L20`.
use vstd::prelude::*;
use crate::gcode::{
    AxisValues, CommandModel, CoordinateMode, CoordinateSystem, GCodeCommand,
    GCodeFormatSpecification, GCodeLine, GCodeModal, LineModel, MoveMode, OffsetAxisValues,
    Orientation, Plane, ProbeDirection, ProbeRequirement, SpindleMode, Unit,
};
use crate::number::{
    decimal_prefix_within, parse_decimal_prefix_within, truncate_to_u64, truncate_u64, Decimal,
};
use crate::text::{
    alpha_class, blank_class, bytes_equal, find, find_byte, has_prefix, integer_class, number_class,
    lemma_run_len_props, run_len, scan_run, starts_with,
};

verus! {

/// Most digits a number in a G-code line may hold: all that a decimal's
/// mantissa holds.
pub const GCODE_NUMBER_DIGITS: usize = 38;

/// The word that chooses a line's command.
#[derive(Debug, Clone, Copy, PartialEq, Eq, Structural)]
pub enum PrimaryCommand {
    Move(MoveMode),
    ArcMove(Orientation),
    Dwell,
    SetWorkCoordinate,
    Probe(ProbeDirection, ProbeRequirement),
}

/// What a `G` or `M` word does to the line being read.
#[derive(Debug, Clone, Copy, PartialEq, Eq, Structural)]
pub enum Effect {
    Primary(PrimaryCommand),
    Modal(GCodeModal),
    Reject,
}

/// One word of a line, as read.
#[derive(Debug, Clone, Copy, PartialEq, Eq, Structural)]
pub enum Word {
    /// A `G` word, with its effect and whether its number is `10`.
    G(Effect, bool),
    M(Effect),
    P(Decimal),
    F(Decimal),
    AxisWord(usize, Decimal),
    OffsetAxisWord(usize, Decimal),
}

/// A line partly read.
pub struct PartialModel {
    pub modals: Seq<GCodeModal>,
    pub primary_command: Option<PrimaryCommand>,
    pub axis_values: Seq<(usize, Decimal)>,
    pub offset_axis_values: Seq<(usize, Decimal)>,
    pub p_value: Option<Decimal>,
}

pub open spec fn empty_partial() -> PartialModel {
    PartialModel {
        modals: Seq::empty(),
        primary_command: None,
        axis_values: Seq::empty(),
        offset_axis_values: Seq::empty(),
        p_value: None,
    }
}

/// The effect of `G` followed by `name`.
pub open spec fn g_effect(name: Seq<u8>) -> Effect {
    if name == seq![48u8] {
        Effect::Primary(PrimaryCommand::Move(MoveMode::Rapid))
    } else if name == seq![49u8] {
        Effect::Primary(PrimaryCommand::Move(MoveMode::Controlled))
    } else if name == seq![50u8] {
        Effect::Primary(PrimaryCommand::ArcMove(Orientation::Clockwise))
    } else if name == seq![51u8] {
        Effect::Primary(PrimaryCommand::ArcMove(Orientation::Counterclockwise))
    } else if name == seq![52u8] {
        Effect::Primary(PrimaryCommand::Dwell)
    } else if name == seq![51u8, 56u8, 46u8, 50u8] {
        Effect::Primary(PrimaryCommand::Probe(ProbeDirection::Towards, ProbeRequirement::Require))
    } else if name == seq![51u8, 56u8, 46u8, 51u8] {
        Effect::Primary(
            PrimaryCommand::Probe(ProbeDirection::Towards, ProbeRequirement::Optional),
        )
    } else if name == seq![51u8, 56u8, 46u8, 52u8] {
        Effect::Primary(PrimaryCommand::Probe(ProbeDirection::Away, ProbeRequirement::Require))
    } else if name == seq![51u8, 56u8, 46u8, 53u8] {
        Effect::Primary(PrimaryCommand::Probe(ProbeDirection::Away, ProbeRequirement::Optional))
    } else if name == seq![49u8, 55u8] {
        Effect::Modal(GCodeModal::SetArcPlane(Plane::XY))
    } else if name == seq![49u8, 56u8] {
        Effect::Modal(GCodeModal::SetArcPlane(Plane::ZX))
    } else if name == seq![49u8, 57u8] {
        Effect::Modal(GCodeModal::SetArcPlane(Plane::YZ))
    } else if name == seq![50u8, 48u8] {
        Effect::Modal(GCodeModal::SetUnits(Unit::Inch))
    } else if name == seq![50u8, 49u8] {
        Effect::Modal(GCodeModal::SetUnits(Unit::Millimeter))
    } else if name == seq![53u8, 52u8] {
        Effect::Modal(GCodeModal::SetCoordinateSystem(CoordinateSystem::Coord0))
    } else if name == seq![53u8, 53u8] {
        Effect::Modal(GCodeModal::SetCoordinateSystem(CoordinateSystem::Coord1))
    } else if name == seq![53u8, 54u8] {
        Effect::Modal(GCodeModal::SetCoordinateSystem(CoordinateSystem::Coord2))
    } else if name == seq![53u8, 55u8] {
        Effect::Modal(GCodeModal::SetCoordinateSystem(CoordinateSystem::Coord3))
    } else if name == seq![53u8, 56u8] {
        Effect::Modal(GCodeModal::SetCoordinateSystem(CoordinateSystem::Coord4))
    } else if name == seq![53u8, 57u8] {
        Effect::Modal(GCodeModal::SetCoordinateSystem(CoordinateSystem::Coord5))
    } else if name == seq![57u8, 48u8] {
        Effect::Modal(GCodeModal::SetCoordinateMode(CoordinateMode::Absolute))
    } else if name == seq![57u8, 49u8] {
        Effect::Modal(GCodeModal::SetCoordinateMode(CoordinateMode::Incremental))
    } else {
        Effect::Reject
    }
}

/// The effect of `M` followed by `name`.
pub open spec fn m_effect(name: Seq<u8>) -> Effect {
    if name == seq![50u8] {
        Effect::Modal(GCodeModal::EndProgram)
    } else if name == seq![51u8] {
        Effect::Modal(GCodeModal::SetSpindle(SpindleMode::Clockwise))
    } else if name == seq![53u8] {
        Effect::Modal(GCodeModal::SetSpindle(SpindleMode::Off))
    } else {
        Effect::Reject
    }
}

/// Reads the word at the start of `s`; returns it with the number of bytes read.
pub open spec fn word_spec(axis_letters: Seq<u8>, offset_letters: Seq<u8>, s: Seq<u8>) -> Option<
    (Word, nat),
> {
    let h = run_len(s, alpha_class());
    let head = s.take(h as int);
    let rest = s.skip(h as int);
    if h == 0 {
        None
    } else if head == seq![71u8] {
        let k = run_len(rest, number_class());
        let name = rest.take(k as int);
        Some((Word::G(g_effect(name), name == seq![49u8, 48u8]), h + k))
    } else if head == seq![77u8] {
        let k = run_len(rest, integer_class());
        let name = rest.take(k as int);
        Some((Word::M(m_effect(name)), h + k))
    } else if head == seq![80u8] || head == seq![70u8] {
        match decimal_prefix_within(rest, GCODE_NUMBER_DIGITS as nat) {
            Some((v, k)) => if head == seq![80u8] {
                Some((Word::P(v), h + k))
            } else {
                Some((Word::F(v), h + k))
            },
            None => None,
        }
    } else if h == 1 {
        match decimal_prefix_within(rest, GCODE_NUMBER_DIGITS as nat) {
            Some((v, k)) => match find_byte(axis_letters, head[0]) {
                Some(i) => Some((Word::AxisWord(i as usize, v), h + k)),
                None => match find_byte(offset_letters, head[0]) {
                    Some(i) => Some((Word::OffsetAxisWord(i as usize, v), h + k)),
                    None => None,
                },
            },
            None => None,
        }
    } else {
        None
    }
}

/// Records the command word; a second one is an error.
pub open spec fn set_primary(st: PartialModel, p: PrimaryCommand) -> Option<PartialModel> {
    if st.primary_command is Some {
        None
    } else {
        Some(PartialModel { primary_command: Some(p), ..st })
    }
}

pub open spec fn apply_effect(e: Effect, st: PartialModel) -> Option<PartialModel> {
    match e {
        Effect::Primary(p) => set_primary(st, p),
        Effect::Modal(m) => Some(PartialModel { modals: st.modals.push(m), ..st }),
        Effect::Reject => None,
    }
}

/// The effect of a word other than `G10` on the line being read.
pub open spec fn apply_word(w: Word, st: PartialModel) -> Option<PartialModel> {
    match w {
        Word::G(e, _) => apply_effect(e, st),
        Word::M(e) => apply_effect(e, st),
        Word::P(v) => if st.p_value is None {
            Some(PartialModel { p_value: Some(v), ..st })
        } else {
            None
        },
        Word::F(v) => Some(
            PartialModel { modals: st.modals.push(GCodeModal::SetFeedrate(v)), ..st },
        ),
        Word::AxisWord(i, v) => Some(
            PartialModel { axis_values: st.axis_values.push((i, v)), ..st },
        ),
        Word::OffsetAxisWord(i, v) => Some(
            PartialModel { offset_axis_values: st.offset_axis_values.push((i, v)), ..st },
        ),
    }
}

/// `L20`.
pub open spec fn l20() -> Seq<u8> {
    seq![76u8, 50u8, 48u8]
}

/// Reads the words of `s` into `st`.
pub open spec fn line_loop(
    axis_letters: Seq<u8>,
    offset_letters: Seq<u8>,
    s: Seq<u8>,
    st: PartialModel,
) -> Option<PartialModel>
    decreases s.len(),
{
    let b = run_len(s, blank_class());
    let s1 = s.skip(b as int);
    if b > s.len() {
        None
    } else if s1.len() == 0 {
        Some(st)
    } else {
        match word_spec(axis_letters, offset_letters, s1) {
            None => None,
            Some((w, k)) => if 1 <= k <= s1.len() {
                let rest = s1.skip(k as int);
                if w matches Word::G(_, true) {
                    let bl = run_len(rest, blank_class());
                    let r2 = rest.skip(bl as int);
                    if 1 <= bl <= rest.len() && starts_with(r2, l20()) {
                        match set_primary(st, PrimaryCommand::SetWorkCoordinate) {
                            Some(st2) => line_loop(axis_letters, offset_letters, r2.skip(3), st2),
                            None => None,
                        }
                    } else {
                        None
                    }
                } else {
                    match apply_word(w, st) {
                        Some(st2) => line_loop(axis_letters, offset_letters, rest, st2),
                        None => None,
                    }
                }
            } else {
                None
            },
        }
    }
}

/// Turns a fully read line into its content; a dwell needs a `P` value.
pub open spec fn finish_line(st: PartialModel) -> Option<LineModel> {
    match st.primary_command {
        Some(PrimaryCommand::Move(mode)) => Some(
            LineModel {
                modals: st.modals,
                command: Some(CommandModel::Move { mode, position: st.axis_values }),
            },
        ),
        Some(PrimaryCommand::Dwell) => match st.p_value {
            Some(p) => Some(
                LineModel { modals: st.modals, command: Some(CommandModel::Dwell { duration: p }) },
            ),
            None => None,
        },
        Some(PrimaryCommand::ArcMove(orientation)) => Some(
            LineModel {
                modals: st.modals,
                command: Some(
                    CommandModel::ArcMove {
                        orientation,
                        position: st.axis_values,
                        offsets: st.offset_axis_values,
                        revolutions: match st.p_value {
                            Some(p) => Some(truncate_to_u64(p)),
                            None => None,
                        },
                    },
                ),
            },
        ),
        Some(PrimaryCommand::Probe(mode, requirement)) => Some(
            LineModel {
                modals: st.modals,
                command: Some(
                    CommandModel::Probe { position: st.axis_values, mode, requirement },
                ),
            },
        ),
        Some(PrimaryCommand::SetWorkCoordinate) => Some(
            LineModel {
                modals: st.modals,
                command: Some(CommandModel::SetWorkCoordinateTo(st.axis_values)),
            },
        ),
        None => Some(LineModel { modals: st.modals, command: None }),
    }
}

/// The content of the line `s` under `spec`, or nothing when it is not a valid line.
pub open spec fn gcode_line(spec: GCodeFormatSpecification, s: Seq<u8>) -> Option<LineModel> {
    match line_loop(spec.axis_letters@, spec.offset_axis_letters@, s, empty_partial()) {
        Some(st) => finish_line(st),
        None => None,
    }
}

struct PartialLine {
    modals: Vec<GCodeModal>,
    primary_command: Option<PrimaryCommand>,
    axis_values: Vec<(usize, Decimal)>,
    offset_axis_values: Vec<(usize, Decimal)>,
    p_value: Option<Decimal>,
}

impl View for PartialLine {
    type V = PartialModel;

    closed spec fn view(&self) -> PartialModel {
        PartialModel {
            modals: self.modals@,
            primary_command: self.primary_command,
            axis_values: self.axis_values@,
            offset_axis_values: self.offset_axis_values@,
            p_value: self.p_value,
        }
    }
}

fn same1(s: &[u8], a: u8) -> (b: bool)
    ensures
        b == (s@ == seq![a]),
{
    let t = [a];
    let r = bytes_equal(s, &t);
    assert(t@ == seq![a]);
    r
}

fn same2(s: &[u8], a: u8, b: u8) -> (r: bool)
    ensures
        r == (s@ == seq![a, b]),
{
    let t = [a, b];
    let r = bytes_equal(s, &t);
    assert(t@ == seq![a, b]);
    r
}

fn same4(s: &[u8], a: u8, b: u8, c: u8, d: u8) -> (r: bool)
    ensures
        r == (s@ == seq![a, b, c, d]),
{
    let t = [a, b, c, d];
    let r = bytes_equal(s, &t);
    assert(t@ == seq![a, b, c, d]);
    r
}

/// The effect of a `G` word with number `name`.
pub fn classify_g(name: &[u8]) -> (e: Effect)
    ensures
        e == g_effect(name@),
{
    if same1(name, 48) {
        Effect::Primary(PrimaryCommand::Move(MoveMode::Rapid))
    } else if same1(name, 49) {
        Effect::Primary(PrimaryCommand::Move(MoveMode::Controlled))
    } else if same1(name, 50) {
        Effect::Primary(PrimaryCommand::ArcMove(Orientation::Clockwise))
    } else if same1(name, 51) {
        Effect::Primary(PrimaryCommand::ArcMove(Orientation::Counterclockwise))
    } else if same1(name, 52) {
        Effect::Primary(PrimaryCommand::Dwell)
    } else if same4(name, 51, 56, 46, 50) {
        Effect::Primary(PrimaryCommand::Probe(ProbeDirection::Towards, ProbeRequirement::Require))
    } else if same4(name, 51, 56, 46, 51) {
        Effect::Primary(
            PrimaryCommand::Probe(ProbeDirection::Towards, ProbeRequirement::Optional),
        )
    } else if same4(name, 51, 56, 46, 52) {
        Effect::Primary(PrimaryCommand::Probe(ProbeDirection::Away, ProbeRequirement::Require))
    } else if same4(name, 51, 56, 46, 53) {
        Effect::Primary(PrimaryCommand::Probe(ProbeDirection::Away, ProbeRequirement::Optional))
    } else if same2(name, 49, 55) {
        Effect::Modal(GCodeModal::SetArcPlane(Plane::XY))
    } else if same2(name, 49, 56) {
        Effect::Modal(GCodeModal::SetArcPlane(Plane::ZX))
    } else if same2(name, 49, 57) {
        Effect::Modal(GCodeModal::SetArcPlane(Plane::YZ))
    } else if same2(name, 50, 48) {
        Effect::Modal(GCodeModal::SetUnits(Unit::Inch))
    } else if same2(name, 50, 49) {
        Effect::Modal(GCodeModal::SetUnits(Unit::Millimeter))
    } else if same2(name, 53, 52) {
        Effect::Modal(GCodeModal::SetCoordinateSystem(CoordinateSystem::Coord0))
    } else if same2(name, 53, 53) {
        Effect::Modal(GCodeModal::SetCoordinateSystem(CoordinateSystem::Coord1))
    } else if same2(name, 53, 54) {
        Effect::Modal(GCodeModal::SetCoordinateSystem(CoordinateSystem::Coord2))
    } else if same2(name, 53, 55) {
        Effect::Modal(GCodeModal::SetCoordinateSystem(CoordinateSystem::Coord3))
    } else if same2(name, 53, 56) {
        Effect::Modal(GCodeModal::SetCoordinateSystem(CoordinateSystem::Coord4))
    } else if same2(name, 53, 57) {
        Effect::Modal(GCodeModal::SetCoordinateSystem(CoordinateSystem::Coord5))
    } else if same2(name, 57, 48) {
        Effect::Modal(GCodeModal::SetCoordinateMode(CoordinateMode::Absolute))
    } else if same2(name, 57, 49) {
        Effect::Modal(GCodeModal::SetCoordinateMode(CoordinateMode::Incremental))
    } else {
        Effect::Reject
    }
}

/// The effect of an `M` word with number `name`.
pub fn classify_m(name: &[u8]) -> (e: Effect)
    ensures
        e == m_effect(name@),
{
    if same1(name, 50) {
        Effect::Modal(GCodeModal::EndProgram)
    } else if same1(name, 51) {
        Effect::Modal(GCodeModal::SetSpindle(SpindleMode::Clockwise))
    } else if same1(name, 53) {
        Effect::Modal(GCodeModal::SetSpindle(SpindleMode::Off))
    } else {
        Effect::Reject
    }
}

/// Reads the word at the start of `s`.
pub fn read_word(spec: &GCodeFormatSpecification, s: &[u8]) -> (r: Option<(Word, usize)>)
    ensures
        match r {
            Some((w, k)) => word_spec(spec.axis_letters@, spec.offset_axis_letters@, s@) == Some(
                (w, k as nat),
            ) && 1 <= k <= s.len(),
            None => word_spec(spec.axis_letters@, spec.offset_axis_letters@, s@) is None,
        },
{
    let h = scan_run(s, 1);
    if h == 0 {
        return None;
    }
    let head = &s[0..h];
    let rest = &s[h..s.len()];
    assert(head@ == s@.take(h as int));
    assert(rest@ == s@.skip(h as int));
    let is_g = same1(head, 71);
    let is_m = same1(head, 77);
    if is_g || is_m {
        let k = if is_g {
            scan_run(rest, 3)
        } else {
            scan_run(rest, 4)
        };
        let name = &rest[0..k];
        assert(name@ == rest@.take(k as int));
        if is_g {
            let e = classify_g(name);
            let ten = same2(name, 49, 48);
            return Some((Word::G(e, ten), h + k));
        } else {
            let e = classify_m(name);
            return Some((Word::M(e), h + k));
        }
    }
    let is_p = same1(head, 80);
    let is_f = same1(head, 70);
    if is_p || is_f {
        match parse_decimal_prefix_within(rest, GCODE_NUMBER_DIGITS) {
            Some((v, k)) => {
                proof {
                    lemma_run_len_props(rest@, crate::text::number_class());
                }
                if is_p {
                    return Some((Word::P(v), h + k));
                } else {
                    return Some((Word::F(v), h + k));
                }
            },
            None => {
                return None;
            },
        }
    }
    if h != 1 {
        return None;
    }
    match parse_decimal_prefix_within(rest, GCODE_NUMBER_DIGITS) {
        Some((v, k)) => {
            proof {
                lemma_run_len_props(rest@, crate::text::number_class());
            }
            let letter = s[0];
            assert(head@[0] == letter);
            match find(spec.axis_letters.as_slice(), letter) {
                Some(i) => Some((Word::AxisWord(i, v), h + k)),
                None => match find(spec.offset_axis_letters.as_slice(), letter) {
                    Some(i) => Some((Word::OffsetAxisWord(i, v), h + k)),
                    None => None,
                },
            }
        },
        None => None,
    }
}

fn apply_effect_exec(st: &mut PartialLine, e: Effect) -> (ok: bool)
    ensures
        ok == apply_effect(e, old(st)@) is Some,
        ok ==> final(st)@ == apply_effect(e, old(st)@).unwrap(),
{
    match e {
        Effect::Primary(p) => {
            if st.primary_command.is_some() {
                false
            } else {
                st.primary_command = Some(p);
                true
            }
        },
        Effect::Modal(m) => {
            st.modals.push(m);
            true
        },
        Effect::Reject => false,
    }
}

fn apply_word_exec(st: &mut PartialLine, w: Word) -> (ok: bool)
    ensures
        ok == apply_word(w, old(st)@) is Some,
        ok ==> final(st)@ == apply_word(w, old(st)@).unwrap(),
{
    match w {
        Word::G(e, _) => apply_effect_exec(st, e),
        Word::M(e) => apply_effect_exec(st, e),
        Word::P(v) => {
            if st.p_value.is_none() {
                st.p_value = Some(v);
                true
            } else {
                false
            }
        },
        Word::F(v) => {
            st.modals.push(GCodeModal::SetFeedrate(v));
            true
        },
        Word::AxisWord(i, v) => {
            st.axis_values.push((i, v));
            true
        },
        Word::OffsetAxisWord(i, v) => {
            st.offset_axis_values.push((i, v));
            true
        },
    }
}

fn finish_exec(st: PartialLine) -> (r: Option<GCodeLine>)
    ensures
        match r {
            Some(line) => finish_line(st@) == Some(line@),
            None => finish_line(st@) is None,
        },
{
    let PartialLine { modals, primary_command, axis_values, offset_axis_values, p_value } = st;
    let command = match primary_command {
        Some(PrimaryCommand::Move(mode)) => Some(
            GCodeCommand::Move { mode, position: AxisValues(axis_values) },
        ),
        Some(PrimaryCommand::Dwell) => match p_value {
            Some(p) => Some(GCodeCommand::Dwell { duration: p }),
            None => {
                return None;
            },
        },
        Some(PrimaryCommand::ArcMove(orientation)) => Some(
            GCodeCommand::ArcMove {
                orientation,
                position: AxisValues(axis_values),
                offsets: OffsetAxisValues(offset_axis_values),
                revolutions: match p_value {
                    Some(p) => Some(truncate_u64(p)),
                    None => None,
                },
            },
        ),
        Some(PrimaryCommand::Probe(mode, requirement)) => Some(
            GCodeCommand::Probe { position: AxisValues(axis_values), mode, requirement },
        ),
        Some(PrimaryCommand::SetWorkCoordinate) => Some(
            GCodeCommand::SetWorkCoordinateTo(AxisValues(axis_values)),
        ),
        None => None,
    };
    Some(GCodeLine { modals, command })
}

/// Reads one G-code line; `None` when the line is not valid under `spec`.
pub fn parse_gcode_line(spec: &GCodeFormatSpecification, input: &[u8]) -> (r: Option<GCodeLine>)
    ensures
        match r {
            Some(line) => gcode_line(*spec, input@) == Some(line@),
            None => gcode_line(*spec, input@) is None,
        },
{
    let ghost axis = spec.axis_letters@;
    let ghost offs = spec.offset_axis_letters@;
    let mut st = PartialLine {
        modals: Vec::new(),
        primary_command: None,
        axis_values: Vec::new(),
        offset_axis_values: Vec::new(),
        p_value: None,
    };
    let mut i: usize = 0;
    assert(st@ == empty_partial());
    assert(input@.skip(0) =~= input@);
    loop
        invariant
            i <= input.len(),
            axis == spec.axis_letters@,
            offs == spec.offset_axis_letters@,
            line_loop(axis, offs, input@, empty_partial()) == line_loop(
                axis,
                offs,
                input@.skip(i as int),
                st@,
            ),
        decreases input.len() - i,
    {
        let ghost s = input@.skip(i as int);
        let rest = &input[i..input.len()];
        assert(rest@ == s);
        let b = scan_run(rest, 2);
        proof {
            lemma_run_len_props(s, blank_class());
        }
        let ghost s1 = s.skip(b as int);
        let j = i + b;
        assert(input@.skip(j as int) =~= s1);
        if j == input.len() {
            assert(s1.len() == 0);
            return finish_exec(st);
        }
        let rest1 = &input[j..input.len()];
        assert(rest1@ == s1);
        match read_word(spec, rest1) {
            None => {
                return None;
            },
            Some((w, k)) => {
                let ghost after = s1.skip(k as int);
                let k2 = j + k;
                assert(input@.skip(k2 as int) =~= after);
                match w {
                    Word::G(_, true) => {
                        let rest2 = &input[k2..input.len()];
                        assert(rest2@ == after);
                        let bl = scan_run(rest2, 2);
                        proof {
                            lemma_run_len_props(after, blank_class());
                        }
                        let k3 = k2 + bl;
                        let rest3 = &input[k3..input.len()];
                        assert(rest3@ == after.skip(bl as int));
                        let l = [76u8, 50u8, 48u8];
                        let lsl: &[u8] = &l;
                        assert(lsl@ == l20());
                        if bl < 1 || !has_prefix(rest3, lsl) {
                            return None;
                        }
                        if st.primary_command.is_some() {
                            return None;
                        }
                        st.primary_command = Some(PrimaryCommand::SetWorkCoordinate);
                        i = k3 + 3;
                        assert(input@.skip(i as int) =~= after.skip(bl as int).skip(3));
                    },
                    _ => {
                        if !apply_word_exec(&mut st, w) {
                            return None;
                        }
                        i = k2;
                    },
                }
            },
        }
    }
}

} // verus!
